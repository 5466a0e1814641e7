//! What the harness keeps on disk: the checkpoint of the loop, the log of
//! finished iterations and the operator's guidance.
use vstd::prelude::*;

use crate::error::Error;
use crate::score::Score;
use crate::text;
use crate::time::Timestamp;

verus! {

/// How an iteration ended.
#[derive(Debug, Clone, Copy, PartialEq, Eq, Structural)]
pub enum Outcome {
    Merged,
    Discarded,
    Noop,
    Invalid,
    Killed,
    Denied,
}

/// Where the loop stands.
#[derive(Debug, Clone, Copy, PartialEq, Eq, Structural)]
pub enum CurrentStep {
    Idle,
    AllocateIter,
    CreateWorktree,
    RunSetup,
    BuildPrompt,
    InvokeAgent,
    CaptureDiff,
    RunTeardown,
    Score,
    Decide,
    Merge,
    Discard,
    Cleanup,
    Record,
    CheckDeadline,
    Done,
}

/// One finished iteration.
#[derive(Debug)]
pub struct IterationRecord {
    pub iter: u64,
    pub started_at: Timestamp,
    pub ended_at: Timestamp,
    pub outcome: Outcome,
    pub score: Option<Score>,
    pub best_so_far: Option<Score>,
    pub agent_exit: Option<i32>,
    pub agent_killed_by_budget: bool,
    pub diff_lines: u64,
    pub notes: String,
    pub summary: String,
}

impl Clone for IterationRecord {
    fn clone(&self) -> (r: IterationRecord)
        ensures
            r == *self,
    {
        IterationRecord {
            iter: self.iter,
            started_at: self.started_at,
            ended_at: self.ended_at,
            outcome: self.outcome,
            score: self.score,
            best_so_far: self.best_so_far,
            agent_exit: self.agent_exit,
            agent_killed_by_budget: self.agent_killed_by_budget,
            diff_lines: self.diff_lines,
            notes: self.notes.clone(),
            summary: self.summary.clone(),
        }
    }
}

/// The checkpoint of the loop.
#[derive(Debug)]
pub struct StateSnapshot {
    pub experiment: String,
    pub branch: String,
    pub base_commit: String,
    pub iter_in_progress: Option<u64>,
    pub current_step: CurrentStep,
    pub best_score: Option<Score>,
    pub best_iter: Option<u64>,
    pub started_at: Timestamp,
    pub deadline: Timestamp,
    /// Iterations finished over the experiment's lifetime.
    pub iterations_completed: u64,
    /// Iterations finished since the last fresh start.
    pub run_iterations_completed: u64,
    pub consecutive_noops: u32,
}

impl Clone for StateSnapshot {
    fn clone(&self) -> (r: StateSnapshot)
        ensures
            r == *self,
    {
        StateSnapshot {
            experiment: self.experiment.clone(),
            branch: self.branch.clone(),
            base_commit: self.base_commit.clone(),
            iter_in_progress: self.iter_in_progress,
            current_step: self.current_step,
            best_score: self.best_score,
            best_iter: self.best_iter,
            started_at: self.started_at,
            deadline: self.deadline,
            iterations_completed: self.iterations_completed,
            run_iterations_completed: self.run_iterations_completed,
            consecutive_noops: self.consecutive_noops,
        }
    }
}

/// The iterations of the run that a checkpoint tells: a checkpoint that does not
/// tell them knows of one run only, so that they are all its iterations.
pub fn run_count(told: Option<u64>, all: u64) -> (r: u64)
    ensures
        r == match told {
            Some(n) => n,
            None => all,
        },
{
    match told {
        Some(n) => n,
        None => all,
    }
}

/// A line of guidance from the operator.
#[derive(Debug, Clone)]
pub struct GuidanceEntry {
    pub ts: Timestamp,
    /// The iteration the run stood at, if it was running.
    pub added_at_iter: Option<u64>,
    pub text: String,
}

/// What `String::from_utf8_lossy` makes of bytes.
pub uninterp spec fn lossy(bytes: Seq<u8>) -> Seq<char>;

/// Calls `String::from_utf8_lossy`. Its result is a function of the bytes
/// alone; bytes that are valid UTF-8 give the text they encode.
#[verifier::external_body]
pub(crate) fn utf8_lossy(bytes: &Vec<u8>) -> (r: String)
    ensures
        r@ == lossy(bytes@),
        vstd::utf8::valid_utf8(bytes@) ==> r@ == vstd::utf8::decode_utf8(bytes@),
{
    String::from_utf8_lossy(bytes).into_owned()
}

/// The pieces that hold anything.
pub open spec fn filled_only(parts: Seq<Seq<char>>) -> Seq<Seq<char>>
    decreases parts.len(),
{
    if parts.len() == 0 {
        Seq::empty()
    } else if parts.last().len() == 0 {
        filled_only(parts.drop_last())
    } else {
        filled_only(parts.drop_last()).push(parts.last())
    }
}

/// The lines of a log: the non-empty pieces between line feeds.
pub open spec fn log_lines(log: Seq<char>) -> Seq<Seq<char>> {
    filled_only(text::split_on(log, '\n'))
}

/// Keeps the pieces that hold anything.
pub fn keep_filled(parts: Vec<String>) -> (r: Vec<String>)
    ensures
        text::texts(r@) == filled_only(text::texts(parts@)),
{
    let mut out: Vec<String> = Vec::new();
    let mut i: usize = 0;
    let ghost all = text::texts(parts@);
    assert(all.take(0) == Seq::<Seq<char>>::empty());
    assert(text::texts(out@) == Seq::<Seq<char>>::empty());
    while i < parts.len()
        invariant
            i <= parts.len(),
            all == text::texts(parts@),
            text::texts(out@) == filled_only(all.take(i as int)),
        decreases parts.len() - i,
    {
        let ghost next = all.take(i as int + 1);
        assert(next.drop_last() == all.take(i as int));
        assert(next.last() == parts@[i as int]@);
        if text::chars_of(parts[i].as_str()).len() > 0 {
            let line = text::owned(parts[i].as_str());
            let ghost before = out@;
            out.push(line);
            assert(text::texts(out@) == text::texts(before).push(line@));
        }
        i += 1;
    }
    assert(all.take(all.len() as int) == all);
    out
}

/// The lines of a log's text.
pub fn lines_in_log(log: &str) -> (r: Vec<String>)
    ensures
        text::texts(r@) == log_lines(log@),
{
    keep_filled(text::split(log, '\n'))
}

/// The lines of a log file.
pub fn log_file_lines(bytes: &Vec<u8>) -> (r: Vec<String>)
    ensures
        text::texts(r@) == log_lines(lossy(bytes@)),
        vstd::utf8::valid_utf8(bytes@) ==> text::texts(r@) == log_lines(
            vstd::utf8::decode_utf8(bytes@),
        ),
{
    let log = utf8_lossy(bytes);
    lines_in_log(log.as_str())
}

/// What counts of the readings of a log's lines: a last line that cannot be
/// read is torn, and dropped.
pub open spec fn untorn<T>(read: Seq<Result<T, String>>) -> Seq<Result<T, String>> {
    if read.len() > 0 && read.last() is Err {
        read.drop_last()
    } else {
        read
    }
}

/// Puts the readings of a log's lines together. A last line that cannot be read
/// is dropped; any other is an error, and the first one is told.
pub fn collect_log<T>(read: Vec<Result<T, String>>) -> (r: Result<Vec<T>, Error>)
    ensures
        match r {
            Ok(v) => {
                &&& v@.len() == untorn(read@).len()
                &&& forall|i: int|
                    0 <= i < v@.len() ==> (#[trigger] untorn(read@)[i]) == Ok::<T, String>(v@[i])
            },
            Err(Error::Json(m)) => exists|i: int|
                {
                    &&& 0 <= i < untorn(read@).len()
                    &&& (#[trigger] untorn(read@)[i]) matches Err(e) && e@ == m@
                    &&& forall|j: int| 0 <= j < i ==> (#[trigger] untorn(read@)[j]) is Ok
                },
            Err(_) => false,
        },
{
    let ghost all = read@;
    let mut rest = read;
    let n = rest.len();
    if n > 0 && rest[n - 1].is_err() {
        rest.pop();
    }
    let ghost kept = untorn(all);
    assert(rest@ == kept);
    let mut out: Vec<T> = Vec::new();
    let mut reversed: Vec<Result<T, String>> = Vec::new();
    while rest.len() > 0
        invariant
            rest@.len() + reversed@.len() == kept.len(),
            rest@ == kept.take(rest@.len() as int),
            forall|j: int|
                0 <= j < reversed@.len() ==> (#[trigger] reversed@[j]) == kept[kept.len() - 1 - j],
        decreases rest.len(),
    {
        match rest.pop() {
            Some(x) => {
                assert(rest@ == kept.take(rest@.len() as int));
                reversed.push(x);
            },
            None => {},
        }
    }
    while reversed.len() > 0
        invariant
            out@.len() + reversed@.len() == kept.len(),
            kept == untorn(read@),
            forall|j: int|
                0 <= j < reversed@.len() ==> (#[trigger] reversed@[j]) == kept[kept.len() - 1 - j],
            forall|j: int| 0 <= j < out@.len() ==> (#[trigger] kept[j]) == Ok::<T, String>(out@[j]),
        decreases reversed.len(),
    {
        let ghost at = out@.len() as int;
        assert(reversed@[reversed@.len() - 1] == kept[at]);
        match reversed.pop() {
            Some(Ok(x)) => {
                out.push(x);
            },
            Some(Err(e)) => {
                assert(untorn(read@)[at] == Err::<T, String>(e));
                return Err(Error::Json(e));
            },
            None => {},
        }
    }
    Ok(out)
}

/// Whether a log ends in a line that is not closed.
pub open spec fn ends_open(log: Seq<char>) -> bool {
    log.len() > 0 && log.last() != '\n'
}

/// Tells whether a log file ends in a line that is not closed.
pub fn is_open(bytes: &Vec<u8>) -> (r: bool)
    ensures
        r == ends_open(lossy(bytes@)),
        vstd::utf8::valid_utf8(bytes@) ==> r == ends_open(vstd::utf8::decode_utf8(bytes@)),
{
    let log = utf8_lossy(bytes);
    let v = text::chars_of(log.as_str());
    v.len() > 0 && v[v.len() - 1] != '\n'
}

/// What is added to a log for a line: the line on its own, after the line that
/// the log ends in was closed.
pub open spec fn added(open: bool, line: Seq<char>) -> Seq<char> {
    (if open {
        "\n"@
    } else {
        ""@
    }) + line.push('\n')
}

/// What is added to a log for a line. `open` tells whether the log ends in a
/// line that is not closed.
pub fn log_line(open: bool, line: &str) -> (r: String)
    ensures
        r@ == added(open, line@),
{
    let mut out = text::owned(if open {
        "\n"
    } else {
        ""
    });
    out.push_str(line);
    out.push('\n');
    assert(out@ =~= added(open, line@));
    out
}

/// The text of a log with the given lines.
pub open spec fn log_of(lines: Seq<Seq<char>>) -> Seq<char>
    decreases lines.len(),
{
    if lines.len() == 0 {
        Seq::empty()
    } else {
        log_of(lines.drop_last()) + lines.last().push('\n')
    }
}

/// The text of a log that is written anew.
pub fn whole_log(lines: &Vec<String>) -> (r: String)
    ensures
        r@ == log_of(text::texts(lines@)),
{
    let mut out = String::new();
    let mut i: usize = 0;
    let ghost all = text::texts(lines@);
    while i < lines.len()
        invariant
            i <= lines.len(),
            all == text::texts(lines@),
            out@ == log_of(all.take(i as int)),
        decreases lines.len() - i,
    {
        assert(all.take(i as int + 1).drop_last() == all.take(i as int));
        let ghost before = out@;
        out.push_str(lines[i].as_str());
        out.push('\n');
        assert(out@ == before + lines@[i as int]@.push('\n'));
        i += 1;
    }
    assert(all.take(all.len() as int) == all);
    out
}

/// The text of a log without its last line, where that line is torn: before
/// anything is added to a log, the torn line is cut off, or it would come to
/// stand inside. Nothing where no line is torn. `read` holds the readings of
/// the log's lines.
pub fn mended_log<T>(lines: &Vec<String>, read: &Vec<Result<T, String>>) -> (r: Option<String>)
    requires
        read@.len() == lines@.len(),
    ensures
        match r {
            Some(t) => read@.len() > 0 && read@.last() is Err && t@ == log_of(
                text::texts(lines@).drop_last(),
            ),
            None => read@.len() == 0 || read@.last() is Ok,
        },
{
    let n = read.len();
    if n == 0 || read[n - 1].is_ok() {
        return None;
    }
    let mut kept: Vec<String> = Vec::new();
    let mut i: usize = 0;
    while i < n - 1
        invariant
            i <= n - 1 < lines@.len(),
            kept@.len() == i,
            forall|k: int| 0 <= k < i ==> (#[trigger] kept@[k])@ == lines@[k]@,
        decreases n - i,
    {
        kept.push(text::owned(lines[i].as_str()));
        i += 1;
    }
    assert(text::texts(kept@) =~= text::texts(lines@).drop_last());
    Some(whole_log(&kept))
}

/// A line that a log can hold: not empty, and on one line.
pub open spec fn loggable(line: Seq<char>) -> bool {
    line.len() > 0 && !line.contains('\n')
}

proof fn lemma_split_cons(line: Seq<char>, rest: Seq<char>)
    requires
        !line.contains('\n'),
    ensures
        text::split_on(line.push('\n') + rest, '\n') == seq![line] + text::split_on(rest, '\n'),
{
    let s = line.push('\n') + rest;
    assert(s == line + rest.insert(0, '\n'));
    text::lemma_find_first(line, rest.insert(0, '\n'), '\n');
    assert(s.take(line.len() as int) == line);
    assert(s.skip(line.len() as int + 1) == rest);
}

proof fn lemma_filled_cons(head: Seq<char>, rest: Seq<Seq<char>>)
    ensures
        filled_only(seq![head] + rest) == if head.len() == 0 {
            filled_only(rest)
        } else {
            seq![head] + filled_only(rest)
        },
    decreases rest.len(),
{
    let all = seq![head] + rest;
    if rest.len() == 0 {
        assert(all.drop_last() == Seq::<Seq<char>>::empty());
        assert(all.last() == head);
        reveal_with_fuel(filled_only, 2);
        if head.len() > 0 {
            assert(filled_only(all) == Seq::<Seq<char>>::empty().push(head));
            assert(seq![head] + filled_only(rest) == Seq::<Seq<char>>::empty().push(head));
        }
    } else {
        assert(all.drop_last() == seq![head] + rest.drop_last());
        assert(all.last() == rest.last());
        lemma_filled_cons(head, rest.drop_last());
        if head.len() > 0 && rest.last().len() > 0 {
            assert((seq![head] + filled_only(rest.drop_last())).push(rest.last()) == seq![head]
                + filled_only(rest.drop_last()).push(rest.last()));
        }
    }
}

/// Lines come back from a log as they went in, in their order.
pub proof fn law_log_round_trip(lines: Seq<Seq<char>>)
    requires
        forall|i: int| 0 <= i < lines.len() ==> loggable(#[trigger] lines[i]),
    ensures
        log_lines(log_of(lines)) == lines,
{
    lemma_log_lines(lines, Seq::empty());
    lemma_empty_log();
    assert(log_of(lines) + Seq::<char>::empty() == log_of(lines));
    assert(lines + Seq::<Seq<char>>::empty() == lines);
}

/// A line that is added to a log, whatever the log holds and however it ends,
/// comes to stand on its own as the last line, and the other lines stay.
pub proof fn law_added_line_is_last(log: Seq<char>, line: Seq<char>)
    requires
        loggable(line),
    ensures
        log_lines(log + added(ends_open(log), line)) == log_lines(log).push(line),
        (log + added(ends_open(log), line)).last() == '\n',
{
    reveal_strlit("\n");
    reveal_strlit("");
    let tail = line.push('\n');
    let none = Seq::<char>::empty();
    lemma_split_cons(line, none);
    assert(tail + none == tail);
    lemma_filled_cons(line, text::split_on(none, '\n'));
    lemma_empty_log();
    assert(log_lines(tail) == seq![line]);
    assert(log_lines(log).push(line) == log_lines(log) + seq![line]);
    if ends_open(log) {
        assert(log + added(true, line) == log.push('\n') + tail);
        lemma_joined_logs(log, tail);
    } else if log.len() == 0 {
        assert(log + added(false, line) == tail);
        assert(log == none);
        assert(log_lines(log) + seq![line] == seq![line]);
    } else {
        let closed = log.drop_last();
        assert(log == closed.push('\n'));
        assert(log + added(false, line) == closed.push('\n') + tail);
        lemma_joined_logs(closed, tail);
        lemma_joined_logs(closed, none);
        assert(closed.push('\n') + none == log);
        assert(log_lines(closed) + Seq::<Seq<char>>::empty() == log_lines(closed));
    }
    assert((log + added(ends_open(log), line)).last() == '\n');
}

/// A torn last line that is cut off leaves the other lines as they were, and a
/// line that is added then follows them.
pub proof fn law_torn_line_is_cut(log: Seq<char>, line: Seq<char>)
    requires
        log_lines(log).len() > 0,
        loggable(line),
    ensures
        ({
            let cut = log_of(log_lines(log).drop_last());
            &&& log_lines(cut) == log_lines(log).drop_last()
            &&& !ends_open(cut)
            &&& log_lines(cut + added(false, line)) == log_lines(log).drop_last().push(line)
        }),
{
    let kept = log_lines(log).drop_last();
    lemma_split_lines(log);
    lemma_filled_loggable(text::split_on(log, '\n'));
    assert forall|i: int| 0 <= i < kept.len() implies loggable(#[trigger] kept[i]) by {
        assert(loggable(log_lines(log)[i]));
    }
    law_log_round_trip(kept);
    law_added_line_is_last(log_of(kept), line);
}

proof fn lemma_split_lines(s: Seq<char>)
    ensures
        forall|i: int|
            0 <= i < text::split_on(s, '\n').len() ==> !(#[trigger] text::split_on(
                s,
                '\n',
            )[i]).contains('\n'),
    decreases s.len(),
{
    let n = text::find_char(s, '\n');
    text::lemma_find_bounds(s, '\n');
    let parts = text::split_on(s, '\n');
    lemma_no_char_before(s, '\n');
    if 0 <= n < s.len() {
        lemma_split_lines(s.skip(n + 1));
        assert forall|i: int| 0 <= i < parts.len() implies !(#[trigger] parts[i]).contains('\n') by {
            if i > 0 {
                assert(parts[i] == text::split_on(s.skip(n + 1), '\n')[i - 1]);
            }
        }
    } else {
        assert(s.take(n) == s);
    }
}

proof fn lemma_no_char_before(s: Seq<char>, c: char)
    ensures
        !s.take(text::find_char(s, c)).contains(c),
        text::find_char(s, c) < s.len() ==> s[text::find_char(s, c)] == c,
    decreases s.len(),
{
    text::lemma_find_bounds(s, c);
    let n = text::find_char(s, c);
    if s.len() > 0 && s[0] != c {
        let rest = s.drop_first();
        lemma_no_char_before(rest, c);
        text::lemma_find_bounds(rest, c);
        if n < s.len() {
            assert(s[n] == rest[n - 1]);
        }
        if s.take(n).contains(c) {
            let k = choose|k: int| 0 <= k < n && s.take(n)[k] == c;
            assert(s[0] != c);
            assert(rest.take(n - 1)[k - 1] == c);
            assert(rest.take(n - 1).contains(c));
        }
    }
}

proof fn lemma_filled_loggable(parts: Seq<Seq<char>>)
    requires
        forall|i: int| 0 <= i < parts.len() ==> !(#[trigger] parts[i]).contains('\n'),
    ensures
        forall|i: int|
            0 <= i < filled_only(parts).len() ==> loggable(#[trigger] filled_only(parts)[i]),
    decreases parts.len(),
{
    if parts.len() > 0 {
        let init = parts.drop_last();
        assert(!parts[parts.len() - 1].contains('\n'));
        assert forall|i: int| 0 <= i < init.len() implies !(#[trigger] init[i]).contains('\n') by {
            assert(init[i] == parts[i]);
        }
        lemma_filled_loggable(init);
        let all = filled_only(parts);
        assert forall|i: int| 0 <= i < all.len() implies loggable(#[trigger] all[i]) by {
            if i < filled_only(init).len() {
                assert(all[i] == filled_only(init)[i]);
            }
        }
    }
}

proof fn lemma_filled_join(a: Seq<Seq<char>>, b: Seq<Seq<char>>)
    ensures
        filled_only(a + b) == filled_only(a) + filled_only(b),
    decreases b.len(),
{
    if b.len() == 0 {
        assert(a + b == a);
        assert(filled_only(a) + filled_only(b) == filled_only(a));
    } else {
        assert((a + b).drop_last() == a + b.drop_last());
        assert((a + b).last() == b.last());
        lemma_filled_join(a, b.drop_last());
        assert(filled_only(a + b) =~= filled_only(a) + filled_only(b));
    }
}

proof fn lemma_joined_logs(a: Seq<char>, b: Seq<char>)
    ensures
        log_lines(a.push('\n') + b) == log_lines(a) + log_lines(b),
{
    lemma_split_join(a, b);
    lemma_filled_join(text::split_on(a, '\n'), text::split_on(b, '\n'));
}

proof fn lemma_split_join(a: Seq<char>, b: Seq<char>)
    ensures
        text::split_on(a.push('\n') + b, '\n') == text::split_on(a, '\n') + text::split_on(b, '\n'),
    decreases a.len(),
{
    let n = text::find_char(a, '\n');
    text::lemma_find_bounds(a, '\n');
    lemma_no_char_before(a, '\n');
    let whole = a.push('\n') + b;
    if n < a.len() {
        let head = a.take(n);
        let rest = a.skip(n + 1);
        assert(a[n] == '\n');
        assert(a == head.push('\n') + rest);
        assert(whole == head.push('\n') + (rest.push('\n') + b));
        lemma_split_cons(head, rest.push('\n') + b);
        lemma_split_cons(head, rest);
        lemma_split_join(rest, b);
        assert(seq![head] + (text::split_on(rest, '\n') + text::split_on(b, '\n')) == (seq![head]
            + text::split_on(rest, '\n')) + text::split_on(b, '\n'));
    } else {
        assert(a.take(n) == a);
        lemma_split_cons(a, b);
        assert(text::split_on(a, '\n') == seq![a]);
    }
}

proof fn lemma_empty_log()
    ensures
        log_lines(Seq::empty()) == Seq::<Seq<char>>::empty(),
{
    let none = Seq::<char>::empty();
    assert(text::split_on(none, '\n') == seq![none]);
    reveal_with_fuel(filled_only, 2);
    assert(seq![none].drop_last() == Seq::<Seq<char>>::empty());
}

proof fn lemma_log_lines(lines: Seq<Seq<char>>, tail: Seq<char>)
    requires
        forall|i: int| 0 <= i < lines.len() ==> loggable(#[trigger] lines[i]),
    ensures
        log_lines(log_of(lines) + tail) == lines + log_lines(tail),
    decreases lines.len(),
{
    if lines.len() == 0 {
        assert(log_of(lines) + tail == tail);
        assert(lines + log_lines(tail) == log_lines(tail));
    } else {
        let init = lines.drop_last();
        let last = lines.last();
        assert(loggable(lines[lines.len() - 1]));
        assert forall|i: int| 0 <= i < init.len() implies loggable(#[trigger] init[i]) by {
            assert(loggable(lines[i]));
        }
        let longer = last.push('\n') + tail;
        assert(log_of(lines) + tail == log_of(init) + longer);
        lemma_log_lines(init, longer);
        lemma_split_cons(last, tail);
        lemma_filled_cons(last, text::split_on(tail, '\n'));
        assert(log_lines(longer) == seq![last] + log_lines(tail));
        assert(init + (seq![last] + log_lines(tail)) == lines + log_lines(tail));
    }
}

/// Just the pieces that hold something are kept.
pub proof fn law_filled_keeps_each(parts: Seq<Seq<char>>, p: Seq<char>)
    ensures
        filled_only(parts).contains(p) <==> p.len() > 0 && parts.contains(p),
    decreases parts.len(),
{
    if parts.len() > 0 {
        let init = parts.drop_last();
        let kept = filled_only(parts);
        let before = filled_only(init);
        law_filled_keeps_each(init, p);
        if parts.contains(p) {
            let k = choose|k: int| 0 <= k < parts.len() && parts[k] == p;
            if k < init.len() {
                assert(init[k] == p);
            }
        }
        if init.contains(p) {
            let k = choose|k: int| 0 <= k < init.len() && init[k] == p;
            assert(parts[k] == p);
        }
        if kept.contains(p) {
            let k = choose|k: int| 0 <= k < kept.len() && kept[k] == p;
            if k < before.len() {
                assert(before[k] == p);
            } else {
                assert(parts[parts.len() - 1] == p);
            }
        }
        if before.contains(p) {
            let k = choose|k: int| 0 <= k < before.len() && before[k] == p;
            assert(kept[k] == p);
        }
        if parts.last() == p && p.len() > 0 {
            assert(kept.last() == p);
        }
    }
}

/// Only a last line that cannot be read is dropped: everything before it, and
/// every last line that can be read, counts.
pub proof fn law_only_a_torn_end_is_dropped<T>(read: Seq<Result<T, String>>)
    ensures
        read.len() > 0 && read.last() is Ok ==> untorn(read) == read,
        read.len() > 0 && read.last() is Err ==> untorn(read).push(read.last()) == read,
        read.len() == 0 ==> untorn(read) == read,
{
    if read.len() > 0 && read.last() is Err {
        assert(read.drop_last().push(read.last()) =~= read);
    }
}

/// A log whose last line is not closed gets a line feed before the next one.
pub proof fn law_open_line_is_closed_first(log: Seq<char>, line: Seq<char>)
    ensures
        ends_open(log) <==> log.len() > 0 && log.last() != '\n',
        log + added(ends_open(log), line) == (if log.len() > 0 && log.last() != '\n' {
            log.push('\n')
        } else {
            log
        }) + line.push('\n'),
{
    reveal_strlit("\n");
    reveal_strlit("");
    let a = log + added(ends_open(log), line);
    let b = (if log.len() > 0 && log.last() != '\n' {
        log.push('\n')
    } else {
        log
    }) + line.push('\n');
    assert(a =~= b);
}

} // verus!
