//! The prompts: what the worker agent and the summarizing agent are told.
use vstd::prelude::*;

use crate::config::{Boundaries, Direction};
use crate::score::{fixed_text, Score};
use crate::storage::{log_of, GuidanceEntry, IterationRecord, Outcome};
use crate::text;
use crate::time::Duration;

verus! {

/// The best iteration so far, with its changes.
pub struct BestSnapshot<'a> {
    pub iter: u64,
    pub score: Score,
    pub diff: &'a str,
}

/// What the worker agent's prompt is made of.
pub struct PromptContext<'a> {
    pub program_md: &'a str,
    pub boundaries: &'a Boundaries,
    /// The operator's guidance, the latest last. It outranks the program.
    pub guidance: &'a Vec<GuidanceEntry>,
    pub recent: &'a Vec<IterationRecord>,
    pub best: Option<BestSnapshot<'a>>,
    pub iter: u64,
    pub budget: Duration,
    pub direction: Direction,
}

/// What the summarizing agent's prompt is made of: the artifacts of one
/// iteration.
pub struct SummaryContext<'a> {
    pub iter: u64,
    pub outcome: Outcome,
    pub score: Option<Score>,
    pub best: Option<(Score, u64)>,
    pub direction: Direction,
    pub diff: &'a str,
    pub stdout_tail: &'a str,
    pub stderr_tail: &'a str,
}

/// The word for an outcome.
pub open spec fn outcome_word(o: Outcome) -> Seq<char> {
    match o {
        Outcome::Merged => "merged"@,
        Outcome::Discarded => "discarded"@,
        Outcome::Noop => "noop"@,
        Outcome::Invalid => "invalid"@,
        Outcome::Killed => "killed"@,
        Outcome::Denied => "denied"@,
    }
}

/// The word for an outcome.
pub fn outcome_label(o: Outcome) -> (r: &'static str)
    ensures
        r@ == outcome_word(o),
{
    match o {
        Outcome::Merged => "merged",
        Outcome::Discarded => "discarded",
        Outcome::Noop => "noop",
        Outcome::Invalid => "invalid",
        Outcome::Killed => "killed",
        Outcome::Denied => "denied",
    }
}

/// The word for a direction.
pub open spec fn direction_word(d: Direction) -> Seq<char> {
    match d {
        Direction::Min => "min"@,
        Direction::Max => "max"@,
    }
}

/// The word for a direction.
pub fn direction_label(d: Direction) -> (r: &'static str)
    ensures
        r@ == direction_word(d),
{
    match d {
        Direction::Min => "min",
        Direction::Max => "max",
    }
}

/// What a direction asks for.
pub open spec fn direction_meaning(d: Direction) -> Seq<char> {
    match d {
        Direction::Min => "lower scores are better"@,
        Direction::Max => "higher scores are better"@,
    }
}

fn direction_explanation(d: Direction) -> (r: &'static str)
    ensures
        r@ == direction_meaning(d),
{
    match d {
        Direction::Min => "lower scores are better",
        Direction::Max => "higher scores are better",
    }
}

/// A score in a table: five decimals, or a dash where there is none.
pub open spec fn score_cell(s: Option<Score>) -> Seq<char> {
    match s {
        None => "\u{2014}"@,
        Some(v) => fixed_text(v, 5),
    }
}

/// A score in a table.
pub fn format_score_cell(s: Option<Score>) -> (r: String)
    ensures
        r@ == score_cell(s),
{
    match s {
        None => text::owned("\u{2014}"),
        Some(v) => v.fixed(5),
    }
}

/// The given paths as a list.
pub open spec fn bullets(paths: Seq<Seq<char>>) -> Seq<char>
    decreases paths.len(),
{
    if paths.len() == 0 {
        Seq::empty()
    } else {
        bullets(paths.drop_last()) + ("- "@ + paths.last() + "\n"@)
    }
}

/// A list of paths, which says so where there are none.
pub open spec fn path_list(paths: Seq<Seq<char>>) -> Seq<char> {
    if paths.len() == 0 {
        "- (none)\n"@
    } else {
        bullets(paths)
    }
}

/// Appends a list of paths.
pub fn push_path_list(s: &mut String, paths: &Vec<String>)
    ensures
        final(s)@ == old(s)@ + path_list(text::texts(paths@)),
{
    if paths.len() == 0 {
        s.push_str("- (none)\n");
        return;
    }
    let ghost all = text::texts(paths@);
    let ghost start = s@;
    let mut i: usize = 0;
    assert(all.take(0) =~= Seq::empty());
    assert(start + bullets(all.take(0)) =~= start);
    while i < paths.len()
        invariant
            i <= paths.len(),
            all == text::texts(paths@),
            s@ == start + bullets(all.take(i as int)),
        decreases paths.len() - i,
    {
        assert(all.take(i as int + 1).drop_last() == all.take(i as int));
        let mut line = text::owned("- ");
        line.push_str(paths[i].as_str());
        line.push_str("\n");
        s.push_str(line.as_str());
        assert(s@ =~= start + bullets(all.take(i as int + 1)));
        i += 1;
    }
    assert(all.take(all.len() as int) == all);
}

/// What an agent is told of the paths it should and must not touch. Nothing
/// where no paths are given.
pub open spec fn boundaries_section(b: Boundaries) -> Seq<char> {
    let allow = text::texts(b.allow_paths@);
    let deny = text::texts(b.deny_paths@);
    if allow.len() == 0 && deny.len() == 0 {
        Seq::empty()
    } else {
        "## Boundaries\n\n"@ + (if allow.len() == 0 {
            Seq::empty()
        } else {
            "You should focus your edits on these paths (PROMPT-ONLY, not enforced):\n"@
                + path_list(allow) + "\n"@
        }) + (if deny.len() == 0 {
            Seq::empty()
        } else {
            "You MUST NOT modify these paths (ENFORCED \u{2014} touching them discards the iteration):\n"@
                + path_list(deny)
        })
    }
}

fn boundaries_text(b: &Boundaries) -> (r: String)
    ensures
        r@ == boundaries_section(*b),
{
    let mut out = String::new();
    if b.allow_paths.len() == 0 && b.deny_paths.len() == 0 {
        return out;
    }
    out.push_str("## Boundaries\n\n");
    if b.allow_paths.len() > 0 {
        out.push_str("You should focus your edits on these paths (PROMPT-ONLY, not enforced):\n");
        push_path_list(&mut out, &b.allow_paths);
        out.push_str("\n");
    }
    if b.deny_paths.len() > 0 {
        out.push_str(
            "You MUST NOT modify these paths (ENFORCED \u{2014} touching them discards the iteration):\n",
        );
        push_path_list(&mut out, &b.deny_paths);
    }
    assert(out@ =~= boundaries_section(*b));
    out
}

/// One line of the operator's guidance.
pub open spec fn guidance_line(g: GuidanceEntry) -> Seq<char> {
    match g.added_at_iter {
        Some(i) => "- (since iter "@ + text::dec(i as nat) + ") "@ + g.text@ + "\n"@,
        None => "- "@ + g.text@ + "\n"@,
    }
}

/// The lines of the operator's guidance.
pub open spec fn guidance_lines(entries: Seq<GuidanceEntry>) -> Seq<char>
    decreases entries.len(),
{
    if entries.len() == 0 {
        Seq::empty()
    } else {
        guidance_lines(entries.drop_last()) + guidance_line(entries.last())
    }
}

/// What the operator wants. Nothing where nothing was said.
pub open spec fn guidance_section(entries: Seq<GuidanceEntry>) -> Seq<char> {
    if entries.len() == 0 {
        Seq::empty()
    } else {
        "\n## Operator guidance\n\nThe operator has issued the following direction for this run. Treat it as authoritative \u{2014} it takes precedence over the general instructions above where they conflict, and should shape what you attempt this iteration:\n\n"@
            + guidance_lines(entries)
    }
}

fn guidance_line_text(g: &GuidanceEntry) -> (r: String)
    ensures
        r@ == guidance_line(*g),
{
    let mut out = text::owned("- ");
    if let Some(at) = g.added_at_iter {
        out = text::owned("- (since iter ");
        out.push_str(text::dec_string(at).as_str());
        out.push_str(") ");
    }
    out.push_str(g.text.as_str());
    out.push_str("\n");
    out
}

fn guidance_text(entries: &Vec<GuidanceEntry>) -> (r: String)
    ensures
        r@ == guidance_section(entries@),
{
    let mut out = String::new();
    if entries.len() == 0 {
        return out;
    }
    out.push_str(
        "\n## Operator guidance\n\nThe operator has issued the following direction for this run. Treat it as authoritative \u{2014} it takes precedence over the general instructions above where they conflict, and should shape what you attempt this iteration:\n\n",
    );
    let ghost head = out@;
    let mut i: usize = 0;
    assert(head + guidance_lines(entries@.take(0)) =~= head);
    while i < entries.len()
        invariant
            i <= entries.len(),
            out@ == head + guidance_lines(entries@.take(i as int)),
        decreases entries.len() - i,
    {
        assert(entries@.take(i as int + 1).drop_last() == entries@.take(i as int));
        out.push_str(guidance_line_text(&entries[i]).as_str());
        assert(out@ =~= head + guidance_lines(entries@.take(i as int + 1)));
        i += 1;
    }
    assert(entries@.take(entries@.len() as int) == entries@);
    out
}

/// One row of the table of iterations.
pub open spec fn history_row(r: IterationRecord) -> Seq<char> {
    "| "@ + text::right_aligned(text::dec(r.iter as nat), 4, ' ') + " | "@ + text::left_aligned(
        outcome_word(r.outcome),
        9,
    ) + " | "@ + text::right_aligned(score_cell(r.score), 10, ' ') + " | "@ + r.notes@ + " |\n"@
}

/// The rows of the table of iterations.
pub open spec fn history_rows(recent: Seq<IterationRecord>) -> Seq<char>
    decreases recent.len(),
{
    if recent.len() == 0 {
        Seq::empty()
    } else {
        history_rows(recent.drop_last()) + history_row(recent.last())
    }
}

/// The table of iterations.
pub open spec fn history_table(recent: Seq<IterationRecord>) -> Seq<char> {
    "| iter | outcome   | score      | reason |\n|------|-----------|------------|--------|\n"@
        + history_rows(recent)
}

fn history_row_text(r: &IterationRecord) -> (row: String)
    ensures
        row@ == history_row(*r),
{
    let mut s = text::owned("| ");
    s.push_str(text::align_right(text::dec_string(r.iter).as_str(), 4, ' ').as_str());
    s.push_str(" | ");
    s.push_str(text::align_left(outcome_label(r.outcome), 9).as_str());
    s.push_str(" | ");
    s.push_str(text::align_right(format_score_cell(r.score).as_str(), 10, ' ').as_str());
    s.push_str(" | ");
    s.push_str(r.notes.as_str());
    s.push_str(" |\n");
    s
}

/// Appends the table of iterations.
pub fn push_history_table(s: &mut String, recent: &Vec<IterationRecord>)
    ensures
        final(s)@ == old(s)@ + history_table(recent@),
{
    let ghost start = s@;
    s.push_str(
        "| iter | outcome   | score      | reason |\n|------|-----------|------------|--------|\n",
    );
    let ghost head = s@;
    let mut i: usize = 0;
    assert(head + history_rows(recent@.take(0)) =~= head);
    while i < recent.len()
        invariant
            i <= recent.len(),
            s@ == head + history_rows(recent@.take(i as int)),
        decreases recent.len() - i,
    {
        assert(recent@.take(i as int + 1).drop_last() == recent@.take(i as int));
        s.push_str(history_row_text(&recent[i]).as_str());
        assert(s@ =~= head + history_rows(recent@.take(i as int + 1)));
        i += 1;
    }
    assert(recent@.take(recent@.len() as int) == recent@);
    assert(s@ =~= start + history_table(recent@));
}

/// What came of the recent iterations.
pub open spec fn recent_section(recent: Seq<IterationRecord>) -> Seq<char> {
    if recent.len() == 0 {
        "No prior iterations.\n"@
    } else {
        history_table(recent)
    }
}

/// The line for a summary.
pub open spec fn summary_line(r: IterationRecord) -> Seq<char> {
    "- iter "@ + text::dec(r.iter as nat) + " ("@ + outcome_word(r.outcome) + "): "@ + r.summary@
        + "\n"@
}

fn summary_line_text(r: &IterationRecord) -> (line: String)
    ensures
        line@ == summary_line(*r),
{
    let mut line = text::owned("- iter ");
    line.push_str(text::dec_string(r.iter).as_str());
    line.push_str(" (");
    line.push_str(outcome_label(r.outcome));
    line.push_str("): ");
    line.push_str(r.summary.as_str());
    line.push_str("\n");
    line
}

/// The summaries that there are, one on a line.
pub open spec fn summary_lines(recent: Seq<IterationRecord>) -> Seq<char>
    decreases recent.len(),
{
    if recent.len() == 0 {
        Seq::empty()
    } else {
        let r = recent.last();
        if r.summary@.len() == 0 {
            summary_lines(recent.drop_last())
        } else {
            summary_lines(recent.drop_last()) + summary_line(r)
        }
    }
}

/// Whether some record has a summary.
pub open spec fn summarized(recent: Seq<IterationRecord>) -> bool {
    exists|i: int| 0 <= i < recent.len() && (#[trigger] recent[i]).summary@.len() > 0
}

/// The summaries of the recent iterations. Nothing where there are none.
pub open spec fn summaries_section(recent: Seq<IterationRecord>) -> Seq<char> {
    if summarized(recent) {
        "\n## Recent attempt summaries\n\n"@ + summary_lines(recent)
    } else {
        Seq::empty()
    }
}

fn summaries_text(recent: &Vec<IterationRecord>) -> (r: String)
    ensures
        r@ == summaries_section(recent@),
{
    let mut lines = String::new();
    let mut any = false;
    let mut i: usize = 0;
    while i < recent.len()
        invariant
            i <= recent.len(),
            lines@ == summary_lines(recent@.take(i as int)),
            any <==> exists|j: int| 0 <= j < i && (#[trigger] recent@[j]).summary@.len() > 0,
        decreases recent.len() - i,
    {
        assert(recent@.take(i as int + 1).drop_last() == recent@.take(i as int));
        let r = &recent[i];
        if text::chars_of(r.summary.as_str()).len() > 0 {
            any = true;
            lines.push_str(summary_line_text(r).as_str());
            assert(recent@[i as int].summary@.len() > 0);
            assert(lines@ =~= summary_lines(recent@.take(i as int + 1)));
        }
        i += 1;
    }
    assert(recent@.take(recent@.len() as int) == recent@);
    if !any {
        return String::new();
    }
    let mut out = text::owned("\n## Recent attempt summaries\n\n");
    out.push_str(lines.as_str());
    out
}

/// A text in a fenced block: it ends its last line.
pub open spec fn line_ended(s: Seq<char>) -> Seq<char> {
    if text::finishes_with(s, "\n"@) {
        s
    } else {
        s + "\n"@
    }
}

/// The best iteration so far.
pub open spec fn best_section(best: Option<BestSnapshot>, direction: Direction) -> Seq<char> {
    match best {
        None => "No improvement merged yet.\n"@,
        Some(b) => "iter "@ + text::dec(b.iter as nat) + ", score "@ + fixed_text(b.score, 5)
            + " (direction: "@ + direction_word(direction) + ").\n"@ + "\nDiff:\n\n```diff\n"@
            + line_ended(b.diff@) + "```\n"@,
    }
}

fn best_text(best: &Option<BestSnapshot>, direction: Direction) -> (r: String)
    ensures
        r@ == best_section(*best, direction),
{
    match best {
        None => text::owned("No improvement merged yet.\n"),
        Some(b) => {
            let mut out = text::owned("iter ");
            out.push_str(text::dec_string(b.iter).as_str());
            out.push_str(", score ");
            out.push_str(b.score.fixed(5).as_str());
            out.push_str(" (direction: ");
            out.push_str(direction_label(direction));
            out.push_str(").\n");
            out.push_str("\nDiff:\n\n```diff\n");
            out.push_str(end_line(b.diff).as_str());
            out.push_str("```\n");
            out
        },
    }
}

fn end_line(s: &str) -> (r: String)
    ensures
        r@ == line_ended(s@),
{
    let mut out = text::owned(s);
    if !text::ends_with(s, "\n") {
        out.push_str("\n");
    }
    out
}

/// The prompt of the worker agent.
pub open spec fn prompt_text(c: PromptContext) -> Seq<char> {
    text::without_trailing_white(c.program_md@) + "\n\n---\n\n"@ + boundaries_section(*c.boundaries)
        + guidance_section(c.guidance@) + "\n## Recent iterations\n\n"@ + recent_section(c.recent@)
        + summaries_section(c.recent@) + "\n## Best iteration so far\n\n"@ + best_section(
        c.best,
        c.direction,
    ) + "\n## This iteration\n\nYou are working on iteration "@ + text::dec(c.iter as nat)
        + ". Hard wall-clock budget: "@ + text::dec(c.budget.secs as nat)
        + "s.\nThe objective direction is `"@ + direction_word(c.direction) + "` \u{2014} "@
        + direction_meaning(c.direction) + CLOSING@
}

/// How the worker agent's prompt ends.
pub const CLOSING: &'static str = ".\n\nJust edit files in the working tree \u{2014} do NOT run `git add`, `git commit`, or otherwise create commits yourself. autorize captures your uncommitted changes and commits them on your behalf.\n";

/// Writes the prompt of the worker agent.
pub fn build_prompt(ctx: &PromptContext) -> (r: String)
    ensures
        r@ == prompt_text(*ctx),
{
    let mut s = text::trim_end(ctx.program_md);
    s.push_str("\n\n---\n\n");
    s.push_str(boundaries_text(ctx.boundaries).as_str());
    s.push_str(guidance_text(ctx.guidance).as_str());
    s.push_str("\n## Recent iterations\n\n");
    if ctx.recent.len() == 0 {
        s.push_str("No prior iterations.\n");
    } else {
        push_history_table(&mut s, ctx.recent);
    }
    s.push_str(summaries_text(ctx.recent).as_str());
    s.push_str("\n## Best iteration so far\n\n");
    s.push_str(best_text(&ctx.best, ctx.direction).as_str());
    s.push_str("\n## This iteration\n\nYou are working on iteration ");
    s.push_str(text::dec_string(ctx.iter).as_str());
    s.push_str(". Hard wall-clock budget: ");
    s.push_str(text::dec_string(ctx.budget.secs).as_str());
    s.push_str("s.\nThe objective direction is `");
    s.push_str(direction_label(ctx.direction));
    s.push_str("` \u{2014} ");
    s.push_str(direction_explanation(ctx.direction));
    s.push_str(CLOSING);
    s
}

/// How many lines of changes the summarizing agent sees.
pub const SUMMARY_MAX_DIFF_LINES: usize = 600;

/// How many lines of each output stream the summarizing agent sees.
pub const SUMMARY_MAX_STDIO_LINES: usize = 80;

/// The first `n` lines of a text, and a note of how many are left out; the
/// whole text where it has no more.
pub open spec fn head_of(s: Seq<char>, n: nat) -> Seq<char> {
    let lines = text::lines_of(s);
    if lines.len() <= n {
        s
    } else {
        log_of(lines.take(n as int)) + ("... ("@ + text::dec((lines.len() - n) as nat)
            + " more lines truncated)\n"@)
    }
}

/// The last `n` lines of a text behind a note of how many are left out; the
/// whole text where it has no more.
pub open spec fn tail_of(s: Seq<char>, n: nat) -> Seq<char> {
    let lines = text::lines_of(s);
    if lines.len() <= n {
        s
    } else {
        "... ("@ + text::dec((lines.len() - n) as nat) + " earlier lines truncated)\n"@ + log_of(
            lines.skip(lines.len() - n),
        )
    }
}

/// Appends the lines `from..to`, each ended.
fn push_lines(out: &mut String, lines: &Vec<String>, from: usize, to: usize)
    requires
        from <= to <= lines.len(),
    ensures
        final(out)@ == old(out)@ + log_of(
            text::texts(lines@).subrange(from as int, to as int),
        ),
{
    let ghost all = text::texts(lines@);
    let ghost start = out@;
    let mut i: usize = from;
    assert(all.subrange(from as int, from as int) =~= Seq::empty());
    assert(start + log_of(all.subrange(from as int, from as int)) =~= start);
    while i < to
        invariant
            from <= i <= to <= lines.len(),
            all == text::texts(lines@),
            out@ == start + log_of(all.subrange(from as int, i as int)),
        decreases to - i,
    {
        let ghost next = all.subrange(from as int, i as int + 1);
        assert(next.drop_last() == all.subrange(from as int, i as int));
        assert(next.last() == lines@[i as int]@);
        out.push_str(lines[i].as_str());
        out.push('\n');
        assert(out@ =~= start + log_of(next));
        i += 1;
    }
}

/// The first `n` lines of a text.
pub fn head_lines(s: &str, n: usize) -> (r: String)
    ensures
        r@ == head_of(s@, n as nat),
{
    let lines = text::lines(s);
    assert(text::texts(lines@).len() == lines@.len());
    if lines.len() <= n {
        return text::owned(s);
    }
    let mut out = String::new();
    push_lines(&mut out, &lines, 0, n);
    assert(text::texts(lines@).subrange(0, n as int) == text::texts(lines@).take(n as int));
    let mut note = text::owned("... (");
    note.push_str(text::dec_string((lines.len() - n) as u64).as_str());
    note.push_str(" more lines truncated)\n");
    out.push_str(note.as_str());
    assert(out@ =~= head_of(s@, n as nat));
    out
}

/// The last `n` lines of a text.
pub fn tail_lines(s: &str, n: usize) -> (r: String)
    ensures
        r@ == tail_of(s@, n as nat),
{
    let lines = text::lines(s);
    assert(text::texts(lines@).len() == lines@.len());
    if lines.len() <= n {
        return text::owned(s);
    }
    let from: usize = lines.len() - n;
    let mut out = text::owned("... (");
    out.push_str(text::dec_string(from as u64).as_str());
    out.push_str(" earlier lines truncated)\n");
    push_lines(&mut out, &lines, from, lines.len());
    assert(text::texts(lines@).subrange(from as int, lines@.len() as int) == text::texts(
        lines@,
    ).skip(from as int));
    out
}

/// A text of no more than `n` lines is kept whole by both cuts.
pub proof fn law_short_texts_are_kept(s: Seq<char>, n: nat)
    requires
        text::lines_of(s).len() <= n,
    ensures
        head_of(s, n) == s,
        tail_of(s, n) == s,
{
}

/// What the summarizing agent is asked for.
pub const SUMMARY_REQUEST: &'static str = "You are summarizing one iteration of an automated code-improvement run. In 1-2 sentences, state what this iteration attempted and why it moved the score the way it did. Be concrete and specific about the change. Output only the summary text \u{2014} no preamble, no markdown headers.\n\n";

/// A score in a sentence.
pub open spec fn score_phrase(s: Option<Score>) -> Seq<char> {
    match s {
        Some(v) => fixed_text(v, 5),
        None => "none"@,
    }
}

/// The best score so far in a sentence.
pub open spec fn best_phrase(best: Option<(Score, u64)>) -> Seq<char> {
    match best {
        Some((s, i)) => "iter "@ + text::dec(i as nat) + ", score "@ + fixed_text(s, 5),
        None => "none"@,
    }
}

/// What an output stream of the agent ended in. Nothing where it is blank.
pub open spec fn stream_section(title: Seq<char>, s: Seq<char>) -> Seq<char> {
    let tail = tail_of(s, SUMMARY_MAX_STDIO_LINES as nat);
    if text::trimmed(tail).len() == 0 {
        Seq::empty()
    } else {
        "\n## Agent "@ + title + " (tail)\n\n```\n"@ + line_ended(tail) + "```\n"@
    }
}

fn stream_text(title: &str, s: &str) -> (r: String)
    ensures
        r@ == stream_section(title@, s@),
{
    let tail = tail_lines(s, SUMMARY_MAX_STDIO_LINES);
    if text::is_blank(tail.as_str()) {
        return String::new();
    }
    let mut out = text::owned("\n## Agent ");
    out.push_str(title);
    out.push_str(" (tail)\n\n```\n");
    out.push_str(end_line(tail.as_str()).as_str());
    out.push_str("```\n");
    out
}

/// The line end that a diff without one gets.
pub open spec fn missing_line_end(diff: Seq<char>) -> Seq<char> {
    if diff.len() > 0 && !text::finishes_with(diff, "\n"@) {
        "\n"@
    } else {
        Seq::empty()
    }
}

/// The prompt of the summarizing agent.
pub open spec fn summary_prompt_text(c: SummaryContext) -> Seq<char> {
    SUMMARY_REQUEST@ + "## Outcome\n- iteration: "@ + text::dec(c.iter as nat) + "\n- outcome: "@
        + outcome_word(c.outcome) + "\n- score: "@ + score_phrase(c.score)
        + " (objective direction: "@ + direction_word(c.direction) + " \u{2014} "@
        + direction_meaning(c.direction) + ")\n- best so far: "@ + best_phrase(c.best)
        + "\n\n## Diff\n\n```diff\n"@ + head_of(c.diff@, SUMMARY_MAX_DIFF_LINES as nat)
        + missing_line_end(c.diff@) + "```\n"@ + stream_section("stdout"@, c.stdout_tail@)
        + stream_section("stderr"@, c.stderr_tail@)
}

/// Writes the prompt of the summarizing agent: this iteration's own artifacts
/// only, cut so that a cheap model can take them.
pub fn build_summary_prompt(ctx: &SummaryContext) -> (r: String)
    ensures
        r@ == summary_prompt_text(*ctx),
{
    let mut s = text::owned(SUMMARY_REQUEST);
    s.push_str("## Outcome\n- iteration: ");
    s.push_str(text::dec_string(ctx.iter).as_str());
    s.push_str("\n- outcome: ");
    s.push_str(outcome_label(ctx.outcome));
    s.push_str("\n- score: ");
    match ctx.score {
        Some(v) => s.push_str(v.fixed(5).as_str()),
        None => s.push_str("none"),
    }
    s.push_str(" (objective direction: ");
    s.push_str(direction_label(ctx.direction));
    s.push_str(" \u{2014} ");
    s.push_str(direction_explanation(ctx.direction));
    s.push_str(")\n- best so far: ");
    let best = match ctx.best {
        Some((score, iter)) => {
            let mut b = text::owned("iter ");
            b.push_str(text::dec_string(iter).as_str());
            b.push_str(", score ");
            b.push_str(score.fixed(5).as_str());
            b
        },
        None => text::owned("none"),
    };
    s.push_str(best.as_str());
    s.push_str("\n\n## Diff\n\n```diff\n");
    s.push_str(head_lines(ctx.diff, SUMMARY_MAX_DIFF_LINES).as_str());
    let ghost before = s@;
    if text::chars_of(ctx.diff).len() > 0 && !text::ends_with(ctx.diff, "\n") {
        s.push_str("\n");
    }
    assert(s@ =~= before + missing_line_end(ctx.diff@));
    s.push_str("```\n");
    s.push_str(stream_text("stdout", ctx.stdout_tail).as_str());
    s.push_str(stream_text("stderr", ctx.stderr_tail).as_str());
    s
}

/// The worker agent's prompt begins with the program, white space at its end
/// aside.
pub proof fn law_prompt_begins_with_program(c: PromptContext)
    ensures
        text::begins_with(
            prompt_text(c),
            text::without_trailing_white(c.program_md@) + "\n\n---\n\n"@,
        ),
{
    let head = text::without_trailing_white(c.program_md@) + "\n\n---\n\n"@;
    assert(prompt_text(c).take(head.len() as int) =~= head);
}

/// Sections with nothing to say are left out of the worker agent's prompt.
pub proof fn law_empty_sections_are_left_out(c: PromptContext)
    requires
        c.boundaries.allow_paths@.len() == 0,
        c.boundaries.deny_paths@.len() == 0,
        c.guidance@.len() == 0,
        c.recent@.len() == 0,
        c.best is None,
    ensures
        prompt_text(c) == text::without_trailing_white(c.program_md@)
            + "\n\n---\n\n"@ + "\n## Recent iterations\n\n"@ + "No prior iterations.\n"@
            + "\n## Best iteration so far\n\n"@ + "No improvement merged yet.\n"@
            + "\n## This iteration\n\nYou are working on iteration "@ + text::dec(c.iter as nat)
            + ". Hard wall-clock budget: "@ + text::dec(c.budget.secs as nat)
            + "s.\nThe objective direction is `"@ + direction_word(c.direction) + "` \u{2014} "@
            + direction_meaning(c.direction) + CLOSING@,
{
    assert(boundaries_section(*c.boundaries) =~= Seq::empty());
    assert(guidance_section(c.guidance@) =~= Seq::empty());
    assert(summaries_section(c.recent@) =~= Seq::empty());
    let head = text::without_trailing_white(c.program_md@) + "\n\n---\n\n"@;
    assert(head + Seq::<char>::empty() =~= head);
    assert(head + Seq::<char>::empty() + Seq::<char>::empty() =~= head);
    let recent = head + "\n## Recent iterations\n\n"@ + "No prior iterations.\n"@;
    assert(recent + Seq::<char>::empty() =~= recent);
}

// ---------------------------------------------------------------------------
// What the prompts tell
// ---------------------------------------------------------------------------

/// Whether `line` occurs in `t` somewhere behind `sentence`.
pub open spec fn told_behind(t: Seq<char>, sentence: Seq<char>, line: Seq<char>) -> bool {
    exists|a: Seq<char>, b: Seq<char>| #[trigger]
        (a + sentence + b) == t && text::occurs_in(line, b)
}

proof fn lemma_behind_left(t: Seq<char>, more: Seq<char>, sentence: Seq<char>, line: Seq<char>)
    requires
        told_behind(t, sentence, line),
    ensures
        told_behind(t + more, sentence, line),
{
    let (a, b) = choose|a: Seq<char>, b: Seq<char>| #[trigger]
        (a + sentence + b) == t && text::occurs_in(line, b);
    text::lemma_occurs_wider(line, Seq::empty(), b, more);
    assert(Seq::<char>::empty() + b + more == b + more);
    assert(a + sentence + (b + more) == t + more);
}

proof fn lemma_behind_right(more: Seq<char>, t: Seq<char>, sentence: Seq<char>, line: Seq<char>)
    requires
        told_behind(t, sentence, line),
    ensures
        told_behind(more + t, sentence, line),
{
    let (a, b) = choose|a: Seq<char>, b: Seq<char>| #[trigger]
        (a + sentence + b) == t && text::occurs_in(line, b);
    assert((more + a) + sentence + b == more + t);
}

proof fn lemma_bullets_hold(paths: Seq<Seq<char>>, k: int)
    requires
        0 <= k < paths.len(),
    ensures
        text::occurs_in("- "@ + paths[k] + "\n"@, bullets(paths)),
    decreases paths.len(),
{
    let line = "- "@ + paths[k] + "\n"@;
    let last = "- "@ + paths.last() + "\n"@;
    if k == paths.len() - 1 {
        text::lemma_occurs_whole(line);
        text::lemma_occurs_right(line, bullets(paths.drop_last()), last);
    } else {
        lemma_bullets_hold(paths.drop_last(), k);
        text::lemma_occurs_left(line, bullets(paths.drop_last()), last);
    }
}

/// What follows the boundaries in a prompt.
spec fn after_boundaries(c: PromptContext) -> Seq<Seq<char>> {
    seq![
        guidance_section(c.guidance@),
        "\n## Recent iterations\n\n"@,
        recent_section(c.recent@),
        summaries_section(c.recent@),
        "\n## Best iteration so far\n\n"@,
        best_section(c.best, c.direction),
        "\n## This iteration\n\nYou are working on iteration "@,
        text::dec(c.iter as nat),
        ". Hard wall-clock budget: "@,
        text::dec(c.budget.secs as nat),
        "s.\nThe objective direction is `"@,
        direction_word(c.direction),
        "` \u{2014} "@,
        direction_meaning(c.direction),
        CLOSING@,
    ]
}

proof fn lemma_followed_behind(
    s: Seq<char>,
    more: Seq<Seq<char>>,
    sentence: Seq<char>,
    line: Seq<char>,
)
    requires
        told_behind(s, sentence, line),
    ensures
        told_behind(text::followed(s, more), sentence, line),
    decreases more.len(),
{
    if more.len() > 0 {
        lemma_behind_left(s, more[0], sentence, line);
        lemma_followed_behind(s + more[0], more.drop_first(), sentence, line);
    }
}

/// The prompt is its program, the boundaries, and what follows them.
#[verifier::spinoff_prover]
#[verifier::rlimit(50)]
proof fn lemma_prompt_parts(c: PromptContext)
    ensures
        prompt_text(c) == text::followed(
            text::without_trailing_white(c.program_md@) + "\n\n---\n\n"@ + boundaries_section(
                *c.boundaries,
            ),
            after_boundaries(c),
        ),
{
    reveal_with_fuel(text::followed, 16);
    let m = after_boundaries(c);
    let m1 = m.drop_first();
    let m2 = m1.drop_first();
    let m3 = m2.drop_first();
    let m4 = m3.drop_first();
    let m5 = m4.drop_first();
    let m6 = m5.drop_first();
    let m7 = m6.drop_first();
    let m8 = m7.drop_first();
    let m9 = m8.drop_first();
    let m10 = m9.drop_first();
    let m11 = m10.drop_first();
    let m12 = m11.drop_first();
    let m13 = m12.drop_first();
    let m14 = m13.drop_first();
    assert(m14.len() == 1 && m14[0] == CLOSING@);
    assert(m13[0] == m[13] && m12[0] == m[12] && m11[0] == m[11] && m10[0] == m[10]);
    assert(m9[0] == m[9] && m8[0] == m[8] && m7[0] == m[7] && m6[0] == m[6] && m5[0] == m[5]);
    assert(m4[0] == m[4] && m3[0] == m[3] && m2[0] == m[2] && m1[0] == m[1]);
}

/// Every path that the agent must not touch is told to it, on a line of its own
/// behind the sentence that forbids those paths. Whether paths to focus on are
/// given makes no difference.
pub proof fn law_denied_paths_are_told(c: PromptContext, k: int)
    requires
        0 <= k < c.boundaries.deny_paths@.len(),
    ensures
        told_behind(
            prompt_text(c),
            "You MUST NOT modify these paths (ENFORCED \u{2014} touching them discards the iteration):\n"@,
            "- "@ + c.boundaries.deny_paths@[k]@ + "\n"@,
        ),
{
    let deny = text::texts(c.boundaries.deny_paths@);
    let allow = text::texts(c.boundaries.allow_paths@);
    let sentence =
        "You MUST NOT modify these paths (ENFORCED \u{2014} touching them discards the iteration):\n"@;
    let line = "- "@ + deny[k] + "\n"@;
    let focus = if allow.len() == 0 {
        Seq::<char>::empty()
    } else {
        "You should focus your edits on these paths (PROMPT-ONLY, not enforced):\n"@ + path_list(
            allow,
        ) + "\n"@
    };
    lemma_bullets_hold(deny, k);
    let list = sentence + path_list(deny);
    assert(Seq::<char>::empty() + sentence + path_list(deny) == list);
    assert(told_behind(list, sentence, line));
    let b = boundaries_section(*c.boundaries);
    lemma_behind_right("## Boundaries\n\n"@ + focus, list, sentence, line);
    assert(b == "## Boundaries\n\n"@ + focus + list);
    let head = text::without_trailing_white(c.program_md@) + "\n\n---\n\n"@;
    lemma_behind_right(head, b, sentence, line);
    lemma_followed_behind(head + b, after_boundaries(c), sentence, line);
    lemma_prompt_parts(c);
}

/// Every path to focus on is told to the agent, on a line of its own behind the
/// sentence that asks for it, and before the sentence that forbids paths.
/// Whether paths are forbidden makes no difference.
#[verifier::spinoff_prover]
#[verifier::rlimit(60)]
pub proof fn law_allowed_paths_are_told(c: PromptContext, k: int)
    requires
        0 <= k < c.boundaries.allow_paths@.len(),
    ensures
        told_behind(
            prompt_text(c),
            "You should focus your edits on these paths (PROMPT-ONLY, not enforced):\n"@,
            "- "@ + c.boundaries.allow_paths@[k]@ + "\n"@,
        ),
        c.boundaries.deny_paths@.len() > 0 ==> exists|a: Seq<char>, b: Seq<char>|
            text::occurs_in("- "@ + c.boundaries.allow_paths@[k]@ + "\n"@, a) && #[trigger] (a
                + "You MUST NOT modify these paths (ENFORCED \u{2014} touching them discards the iteration):\n"@
                + b) == prompt_text(c),
{
    let deny = text::texts(c.boundaries.deny_paths@);
    let allow = text::texts(c.boundaries.allow_paths@);
    let sentence = "You should focus your edits on these paths (PROMPT-ONLY, not enforced):\n"@;
    let forbids =
        "You MUST NOT modify these paths (ENFORCED \u{2014} touching them discards the iteration):\n"@;
    let line = "- "@ + allow[k] + "\n"@;
    let focus = sentence + path_list(allow) + "\n"@;
    lemma_bullets_hold(allow, k);
    assert(Seq::<char>::empty() + sentence + path_list(allow) == sentence + path_list(allow));
    assert(told_behind(sentence + path_list(allow), sentence, line));
    lemma_behind_left(sentence + path_list(allow), "\n"@, sentence, line);
    lemma_behind_right("## Boundaries\n\n"@, focus, sentence, line);
    let b = boundaries_section(*c.boundaries);
    let rest = if deny.len() == 0 {
        Seq::<char>::empty()
    } else {
        forbids + path_list(deny)
    };
    assert(b == "## Boundaries\n\n"@ + focus + rest);
    lemma_behind_left("## Boundaries\n\n"@ + focus, rest, sentence, line);
    let head = text::without_trailing_white(c.program_md@) + "\n\n---\n\n"@;
    lemma_behind_right(head, b, sentence, line);
    lemma_followed_behind(head + b, after_boundaries(c), sentence, line);
    lemma_prompt_parts(c);
    if deny.len() > 0 {
        let tail = text::lemma_followed_grows(head + b, after_boundaries(c));
        let before = head + ("## Boundaries\n\n"@ + focus);
        text::lemma_occurs_right(line, sentence, path_list(allow));
        text::lemma_occurs_left(line, sentence + path_list(allow), "\n"@);
        text::lemma_occurs_right(line, "## Boundaries\n\n"@, focus);
        text::lemma_occurs_right(line, head, "## Boundaries\n\n"@ + focus);
        assert(before + forbids + (path_list(deny) + tail) == head + b + tail);
    }
}

proof fn lemma_guidance_holds(entries: Seq<GuidanceEntry>, k: int)
    requires
        0 <= k < entries.len(),
    ensures
        text::occurs_in(guidance_line(entries[k]), guidance_lines(entries)),
    decreases entries.len(),
{
    let line = guidance_line(entries[k]);
    let init = guidance_lines(entries.drop_last());
    let last = guidance_line(entries.last());
    if k == entries.len() - 1 {
        text::lemma_occurs_whole(line);
        text::lemma_occurs_right(line, init, last);
    } else {
        lemma_guidance_holds(entries.drop_last(), k);
        text::lemma_occurs_left(line, init, last);
    }
}

/// Everything that the operator said is told to the agent, on a line of its own,
/// with the iteration since when it holds, where that is known.
pub proof fn law_guidance_is_told(c: PromptContext, k: int)
    requires
        0 <= k < c.guidance@.len(),
    ensures
        text::occurs_in(
            match c.guidance@[k].added_at_iter {
                Some(n) => "- (since iter "@ + text::dec(n as nat) + ") "@ + c.guidance@[k].text@
                    + "\n"@,
                None => "- "@ + c.guidance@[k].text@ + "\n"@,
            },
            prompt_text(c),
        ),
{
    let line = guidance_line(c.guidance@[k]);
    let m = after_boundaries(c);
    lemma_guidance_holds(c.guidance@, k);
    text::lemma_occurs_right(
        line,
        "\n## Operator guidance\n\nThe operator has issued the following direction for this run. Treat it as authoritative \u{2014} it takes precedence over the general instructions above where they conflict, and should shape what you attempt this iteration:\n\n"@,
        guidance_lines(c.guidance@),
    );
    assert(text::occurs_in(line, m[0]));
    lemma_prompt_parts(c);
    text::lemma_followed_holds(
        line,
        text::without_trailing_white(c.program_md@) + "\n\n---\n\n"@ + boundaries_section(
            *c.boundaries,
        ),
        m,
    );
}

proof fn lemma_rows_hold(recent: Seq<IterationRecord>, k: int)
    requires
        0 <= k < recent.len(),
    ensures
        text::occurs_in(history_row(recent[k]), history_rows(recent)),
    decreases recent.len(),
{
    let row = history_row(recent[k]);
    let init = history_rows(recent.drop_last());
    let last = history_row(recent.last());
    if k == recent.len() - 1 {
        text::lemma_occurs_whole(row);
        text::lemma_occurs_right(row, init, last);
    } else {
        lemma_rows_hold(recent.drop_last(), k);
        text::lemma_occurs_left(row, init, last);
    }
}

proof fn lemma_summaries_hold(recent: Seq<IterationRecord>, k: int)
    requires
        0 <= k < recent.len(),
        recent[k].summary@.len() > 0,
    ensures
        text::occurs_in(summary_line(recent[k]), summary_lines(recent)),
    decreases recent.len(),
{
    let line = summary_line(recent[k]);
    let init = summary_lines(recent.drop_last());
    if k == recent.len() - 1 {
        text::lemma_occurs_whole(line);
        text::lemma_occurs_right(line, init, line);
    } else {
        lemma_summaries_hold(recent.drop_last(), k);
        if recent.last().summary@.len() > 0 {
            text::lemma_occurs_left(line, init, summary_line(recent.last()));
        }
    }
}

/// Every record that is shown has its row: number, outcome, score and reason.
/// One with a summary has a line with it, too.
pub proof fn law_recent_records_are_told(c: PromptContext, k: int)
    requires
        0 <= k < c.recent@.len(),
    ensures
        ({
            let r = c.recent@[k];
            &&& text::occurs_in(
                "| "@ + text::right_aligned(text::dec(r.iter as nat), 4, ' ') + " | "@
                    + text::left_aligned(outcome_word(r.outcome), 9) + " | "@
                    + text::right_aligned(
                    match r.score {
                        Some(s) => fixed_text(s, 5),
                        None => "\u{2014}"@,
                    },
                    10,
                    ' ',
                ) + " | "@ + r.notes@ + " |\n"@,
                prompt_text(c),
            )
            &&& r.summary@.len() > 0 ==> text::occurs_in(
                "- iter "@ + text::dec(r.iter as nat) + " ("@ + outcome_word(r.outcome) + "): "@
                    + r.summary@ + "\n"@,
                prompt_text(c),
            )
        }),
{
    let r = c.recent@[k];
    let m = after_boundaries(c);
    let head = text::without_trailing_white(c.program_md@) + "\n\n---\n\n"@ + boundaries_section(
        *c.boundaries,
    );
    let row = history_row(r);
    lemma_rows_hold(c.recent@, k);
    text::lemma_occurs_right(
        row,
        "| iter | outcome   | score      | reason |\n|------|-----------|------------|--------|\n"@,
        history_rows(c.recent@),
    );
    assert(text::occurs_in(row, m[2]));
    lemma_prompt_parts(c);
    text::lemma_followed_holds(row, head, m);
    if r.summary@.len() > 0 {
        let line = summary_line(r);
        lemma_summaries_hold(c.recent@, k);
        text::lemma_occurs_right(line, "\n## Recent attempt summaries\n\n"@, summary_lines(c.recent@));
        assert(text::occurs_in(line, m[3]));
        text::lemma_followed_holds(line, head, m);
    }
}

/// The best iteration is told with its number, its score and its changes; where
/// there is none, the agent is told so.
pub proof fn law_best_iteration_is_told(c: PromptContext)
    ensures
        c.best matches Some(b) ==> {
            &&& text::occurs_in(
                "iter "@ + text::dec(b.iter as nat) + ", score "@ + fixed_text(b.score, 5),
                prompt_text(c),
            )
            &&& text::occurs_in(b.diff@, prompt_text(c))
        },
        c.best is None ==> text::occurs_in("No improvement merged yet.\n"@, prompt_text(c)),
        c.recent@.len() == 0 ==> text::occurs_in("No prior iterations.\n"@, prompt_text(c)),
{
    let m = after_boundaries(c);
    let head = text::without_trailing_white(c.program_md@) + "\n\n---\n\n"@ + boundaries_section(
        *c.boundaries,
    );
    lemma_prompt_parts(c);
    match c.best {
        Some(b) => {
            let first = "iter "@ + text::dec(b.iter as nat) + ", score "@ + fixed_text(b.score, 5);
            let s1 = first + " (direction: "@;
            let s2 = s1 + direction_word(c.direction);
            let s3 = s2 + ").\n"@;
            let s4 = s3 + "\nDiff:\n\n```diff\n"@;
            let s5 = s4 + line_ended(b.diff@);
            text::lemma_occurs_whole(first);
            text::lemma_occurs_left(first, first, " (direction: "@);
            text::lemma_occurs_left(first, s1, direction_word(c.direction));
            text::lemma_occurs_left(first, s2, ").\n"@);
            text::lemma_occurs_left(first, s3, "\nDiff:\n\n```diff\n"@);
            text::lemma_occurs_left(first, s4, line_ended(b.diff@));
            text::lemma_occurs_left(first, s5, "```\n"@);
            assert(text::occurs_in(first, m[5]));
            text::lemma_followed_holds(first, head, m);
            lemma_line_ended_holds(b.diff@);
            text::lemma_occurs_right(b.diff@, s4, line_ended(b.diff@));
            text::lemma_occurs_left(b.diff@, s5, "```\n"@);
            assert(text::occurs_in(b.diff@, m[5]));
            text::lemma_followed_holds(b.diff@, head, m);
        },
        None => {
            text::lemma_occurs_whole("No improvement merged yet.\n"@);
            assert(text::occurs_in("No improvement merged yet.\n"@, m[5]));
            text::lemma_followed_holds("No improvement merged yet.\n"@, head, m);
        },
    }
    if c.recent@.len() == 0 {
        text::lemma_occurs_whole("No prior iterations.\n"@);
        assert(text::occurs_in("No prior iterations.\n"@, m[2]));
        text::lemma_followed_holds("No prior iterations.\n"@, head, m);
    }
}

proof fn lemma_line_ended_holds(s: Seq<char>)
    ensures
        text::occurs_in(s, line_ended(s)),
{
    text::lemma_occurs_whole(s);
    if line_ended(s) != s {
        text::lemma_occurs_left(s, s, seq!['\n']);
        reveal_strlit("\n");
        assert(line_ended(s) == s + seq!['\n']);
    }
}

/// The program comes first, but for white space at its end; the prompt ends with
/// the agent's own number and time, and with what a good score is.
#[verifier::spinoff_prover]
#[verifier::rlimit(80)]
pub proof fn law_task_is_told(c: PromptContext)
    ensures
        text::begins_with(prompt_text(c), text::without_trailing_white(c.program_md@)),
        text::finishes_with(
            prompt_text(c),
            "\n## This iteration\n\nYou are working on iteration "@ + text::dec(c.iter as nat)
                + ". Hard wall-clock budget: "@ + text::dec(c.budget.secs as nat)
                + "s.\nThe objective direction is `"@ + (if c.direction == Direction::Min {
                "min"@
            } else {
                "max"@
            }) + "` \u{2014} "@ + (if c.direction == Direction::Min {
                "lower scores are better"@
            } else {
                "higher scores are better"@
            })
                + ".\n\nJust edit files in the working tree \u{2014} do NOT run `git add`, `git commit`, or otherwise create commits yourself. autorize captures your uncommitted changes and commits them on your behalf.\n"@,
        ),
{
    let m = after_boundaries(c);
    let program = text::without_trailing_white(c.program_md@);
    let b = boundaries_section(*c.boundaries);
    let head = program + "\n\n---\n\n"@ + b;
    lemma_prompt_parts(c);
    let tail = text::lemma_followed_grows(head, m);
    assert(prompt_text(c) == program + ("\n\n---\n\n"@ + b + tail));
    text::lemma_starts(program, "\n\n---\n\n"@ + b + tail);
    let front = head + m[0] + m[1] + m[2] + m[3] + m[4] + m[5];
    let e6 = m[6] + m[7];
    let e8 = e6 + m[8];
    let e9 = e8 + m[9];
    let e10 = e9 + m[10];
    let e11 = e10 + m[11];
    let e12 = e11 + m[12];
    let e13 = e12 + m[13];
    let e14 = e13 + m[14];
    assert(front + m[6] + m[7] == front + e6);
    assert(front + e6 + m[8] == front + e8);
    assert(front + e8 + m[9] == front + e9);
    assert(front + e9 + m[10] == front + e10);
    assert(front + e10 + m[11] == front + e11);
    assert(front + e11 + m[12] == front + e12);
    assert(front + e12 + m[13] == front + e13);
    assert(front + e13 + m[14] == front + e14);
    assert(prompt_text(c) == front + e14);
    assert((front + e14).skip((front + e14).len() - e14.len()) == e14);
}

/// Each outcome has its own word, the one that the log uses.
pub proof fn law_outcomes_have_their_words(a: Outcome, b: Outcome)
    ensures
        outcome_word(a) == outcome_word(b) ==> a == b,
        outcome_word(Outcome::Merged) == "merged"@,
        outcome_word(Outcome::Discarded) == "discarded"@,
        outcome_word(Outcome::Noop) == "noop"@,
        outcome_word(Outcome::Invalid) == "invalid"@,
        outcome_word(Outcome::Killed) == "killed"@,
        outcome_word(Outcome::Denied) == "denied"@,
{
    reveal_strlit("merged");
    reveal_strlit("discarded");
    reveal_strlit("noop");
    reveal_strlit("invalid");
    reveal_strlit("killed");
    reveal_strlit("denied");
    if outcome_word(a) == outcome_word(b) {
        assert(outcome_word(a)[0] == outcome_word(b)[0]);
        assert(outcome_word(a)[1] == outcome_word(b)[1]);
    }
}

/// A text of few enough lines is kept whole, head and tail; of a longer one, the
/// head holds the first lines and the tail the last ones, and either tells how
/// many are left out.
pub proof fn law_cut_keeps_the_end_asked_for(s: Seq<char>, n: nat)
    ensures
        text::lines_of(s).len() <= n ==> head_of(s, n) == s && tail_of(s, n) == s,
        text::lines_of(s).len() > n ==> {
            let lines = text::lines_of(s);
            let left = text::dec((lines.len() - n) as nat);
            &&& text::begins_with(head_of(s, n), log_of(lines.subrange(0, n as int)))
            &&& text::finishes_with(head_of(s, n), "... ("@ + left + " more lines truncated)\n"@)
            &&& text::finishes_with(
                tail_of(s, n),
                log_of(lines.subrange(lines.len() - n, lines.len() as int)),
            )
            &&& text::begins_with(tail_of(s, n), "... ("@ + left + " earlier lines truncated)\n"@)
        },
{
    let lines = text::lines_of(s);
    if lines.len() > n {
        let left = text::dec((lines.len() - n) as nat);
        let h = log_of(lines.take(n as int));
        let more = "... ("@ + left + " more lines truncated)\n"@;
        assert(lines.subrange(0, n as int) == lines.take(n as int));
        text::lemma_starts(h, more);
        assert((h + more).skip((h + more).len() - more.len()) == more);
        let t = log_of(lines.skip(lines.len() - n));
        let earlier = "... ("@ + left + " earlier lines truncated)\n"@;
        assert(lines.subrange(lines.len() - n, lines.len() as int) == lines.skip(lines.len() - n));
        text::lemma_starts(earlier, t);
        assert((earlier + t).skip((earlier + t).len() - t.len()) == t);
    }
}

spec fn after_outcome(c: SummaryContext) -> Seq<Seq<char>> {
    seq![
        missing_line_end(c.diff@),
        "```\n"@,
        stream_section("stdout"@, c.stdout_tail@),
        stream_section("stderr"@, c.stderr_tail@),
    ]
}

spec fn outcome_part(c: SummaryContext) -> Seq<char> {
    SUMMARY_REQUEST@ + "## Outcome\n- iteration: "@ + text::dec(c.iter as nat) + "\n- outcome: "@
        + outcome_word(c.outcome) + "\n- score: "@ + score_phrase(c.score)
        + " (objective direction: "@ + direction_word(c.direction) + " \u{2014} "@
        + direction_meaning(c.direction) + ")\n- best so far: "@ + best_phrase(c.best)
        + "\n\n## Diff\n\n```diff\n"@ + head_of(c.diff@, 600)
}

proof fn lemma_summary_parts(c: SummaryContext)
    ensures
        summary_prompt_text(c) == text::followed(outcome_part(c), after_outcome(c)),
{
    reveal_with_fuel(text::followed, 6);
    let m = after_outcome(c);
    let m1 = m.drop_first();
    let m2 = m1.drop_first();
    let m3 = m2.drop_first();
    assert(m1[0] == m[1] && m2[0] == m[2] && m3[0] == m[3]);
    assert(m3.len() == 1);
}

/// The summarizing agent is told of the one iteration that it is about: its
/// number, its outcome, its score and what is better, the best score so far, and
/// then the changes.
pub proof fn law_summarizer_is_told_the_outcome(c: SummaryContext)
    ensures
        text::begins_with(
            summary_prompt_text(c),
            SUMMARY_REQUEST@ + "## Outcome\n- iteration: "@ + text::dec(c.iter as nat)
                + "\n- outcome: "@ + outcome_word(c.outcome) + "\n- score: "@ + (match c.score {
                Some(s) => fixed_text(s, 5),
                None => "none"@,
            }) + " (objective direction: "@ + direction_word(c.direction) + " \u{2014} "@
                + direction_meaning(c.direction) + ")\n- best so far: "@ + (match c.best {
                Some((s, n)) => "iter "@ + text::dec(n as nat) + ", score "@ + fixed_text(s, 5),
                None => "none"@,
            }) + "\n\n## Diff\n\n```diff\n"@ + head_of(c.diff@, 600),
        ),
{
    lemma_summary_parts(c);
    let tail = text::lemma_followed_grows(outcome_part(c), after_outcome(c));
    text::lemma_starts(outcome_part(c), tail);
}

/// What the agent printed last is told to the summarizing agent, both streams,
/// each under its own title, unless there is nothing but white space in it.
pub proof fn law_summarizer_is_told_the_streams(c: SummaryContext)
    ensures
        text::trimmed(tail_of(c.stdout_tail@, 80)).len() > 0 ==> text::occurs_in(
            "\n## Agent "@ + "stdout"@ + " (tail)\n\n```\n"@ + line_ended(
                tail_of(c.stdout_tail@, 80),
            ) + "```\n"@,
            summary_prompt_text(c),
        ),
        text::trimmed(tail_of(c.stderr_tail@, 80)).len() > 0 ==> text::occurs_in(
            "\n## Agent "@ + "stderr"@ + " (tail)\n\n```\n"@ + line_ended(
                tail_of(c.stderr_tail@, 80),
            ) + "```\n"@,
            summary_prompt_text(c),
        ),
{
    lemma_summary_parts(c);
    let m = after_outcome(c);
    text::lemma_occurs_whole(m[2]);
    text::lemma_occurs_whole(m[3]);
    text::lemma_followed_holds(m[2], outcome_part(c), m);
    text::lemma_followed_holds(m[3], outcome_part(c), m);
}

proof fn lemma_rows_in_order(recent: Seq<IterationRecord>, j: int, k: int)
    requires
        0 <= j < k < recent.len(),
    ensures
        text::in_order(history_row(recent[j]), history_row(recent[k]), history_rows(recent)),
    decreases recent.len(),
{
    let x = history_row(recent[j]);
    let y = history_row(recent[k]);
    let init = history_rows(recent.drop_last());
    let last = history_row(recent.last());
    if k == recent.len() - 1 {
        lemma_rows_hold(recent.drop_last(), j);
        text::lemma_occurs_whole(y);
        assert(init + last == history_rows(recent));
    } else {
        lemma_rows_in_order(recent.drop_last(), j, k);
        text::lemma_in_order_wider(x, y, Seq::empty(), init, last);
        assert(Seq::<char>::empty() + init + last == history_rows(recent));
    }
}

proof fn lemma_guidance_in_order(entries: Seq<GuidanceEntry>, j: int, k: int)
    requires
        0 <= j < k < entries.len(),
    ensures
        text::in_order(
            guidance_line(entries[j]),
            guidance_line(entries[k]),
            guidance_lines(entries),
        ),
    decreases entries.len(),
{
    let x = guidance_line(entries[j]);
    let y = guidance_line(entries[k]);
    let init = guidance_lines(entries.drop_last());
    let last = guidance_line(entries.last());
    if k == entries.len() - 1 {
        lemma_guidance_holds(entries.drop_last(), j);
        text::lemma_occurs_whole(y);
        assert(init + last == guidance_lines(entries));
    } else {
        lemma_guidance_in_order(entries.drop_last(), j, k);
        text::lemma_in_order_wider(x, y, Seq::empty(), init, last);
        assert(Seq::<char>::empty() + init + last == guidance_lines(entries));
    }
}

/// Records are told in their order, the earlier one before the later one.
pub proof fn law_records_are_told_in_order(c: PromptContext, j: int, k: int)
    requires
        0 <= j < k < c.recent@.len(),
    ensures
        text::in_order(
            "| "@ + text::right_aligned(text::dec(c.recent@[j].iter as nat), 4, ' ') + " | "@
                + text::left_aligned(outcome_word(c.recent@[j].outcome), 9) + " | "@
                + text::right_aligned(score_cell(c.recent@[j].score), 10, ' ') + " | "@
                + c.recent@[j].notes@ + " |\n"@,
            "| "@ + text::right_aligned(text::dec(c.recent@[k].iter as nat), 4, ' ') + " | "@
                + text::left_aligned(outcome_word(c.recent@[k].outcome), 9) + " | "@
                + text::right_aligned(score_cell(c.recent@[k].score), 10, ' ') + " | "@
                + c.recent@[k].notes@ + " |\n"@,
            prompt_text(c),
        ),
{
    let x = history_row(c.recent@[j]);
    let y = history_row(c.recent@[k]);
    let m = after_boundaries(c);
    let rows = history_rows(c.recent@);
    let head =
        "| iter | outcome   | score      | reason |\n|------|-----------|------------|--------|\n"@;
    lemma_rows_in_order(c.recent@, j, k);
    text::lemma_in_order_wider(x, y, head, rows, Seq::empty());
    assert(head + rows + Seq::<char>::empty() == m[2]);
    lemma_prompt_parts(c);
    text::lemma_followed_in_order(
        x,
        y,
        text::without_trailing_white(c.program_md@) + "\n\n---\n\n"@ + boundaries_section(
            *c.boundaries,
        ),
        m,
        2,
    );
}

/// Guidance is told in the order in which it was given, the latest last.
pub proof fn law_guidance_is_told_in_order(c: PromptContext, j: int, k: int)
    requires
        0 <= j < k < c.guidance@.len(),
        c.guidance@[j].added_at_iter is None,
        c.guidance@[k].added_at_iter is None,
    ensures
        text::in_order(
            "- "@ + c.guidance@[j].text@ + "\n"@,
            "- "@ + c.guidance@[k].text@ + "\n"@,
            prompt_text(c),
        ),
{
    lemma_guidance_told_in_order(c, j, k);
}

/// Guidance with the iteration since when it holds is told in that order, too.
pub proof fn law_dated_guidance_is_told_in_order(c: PromptContext, j: int, k: int, a: u64, b: u64)
    requires
        0 <= j < k < c.guidance@.len(),
        c.guidance@[j].added_at_iter == Some(a),
        c.guidance@[k].added_at_iter == Some(b),
    ensures
        text::in_order(
            "- (since iter "@ + text::dec(a as nat) + ") "@ + c.guidance@[j].text@ + "\n"@,
            "- (since iter "@ + text::dec(b as nat) + ") "@ + c.guidance@[k].text@ + "\n"@,
            prompt_text(c),
        ),
{
    lemma_guidance_told_in_order(c, j, k);
}

proof fn lemma_guidance_told_in_order(c: PromptContext, j: int, k: int)
    requires
        0 <= j < k < c.guidance@.len(),
    ensures
        text::in_order(
            guidance_line(c.guidance@[j]),
            guidance_line(c.guidance@[k]),
            prompt_text(c),
        ),
{
    let x = guidance_line(c.guidance@[j]);
    let y = guidance_line(c.guidance@[k]);
    let m = after_boundaries(c);
    let lines = guidance_lines(c.guidance@);
    let head =
        "\n## Operator guidance\n\nThe operator has issued the following direction for this run. Treat it as authoritative \u{2014} it takes precedence over the general instructions above where they conflict, and should shape what you attempt this iteration:\n\n"@;
    lemma_guidance_in_order(c.guidance@, j, k);
    text::lemma_in_order_wider(x, y, head, lines, Seq::empty());
    assert(head + lines + Seq::<char>::empty() == m[0]);
    lemma_prompt_parts(c);
    text::lemma_followed_in_order(
        x,
        y,
        text::without_trailing_white(c.program_md@) + "\n\n---\n\n"@ + boundaries_section(
            *c.boundaries,
        ),
        m,
        0,
    );
}

} // verus!
