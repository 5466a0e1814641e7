use autorize::config::{Boundaries, Direction};
use autorize::prompt::{
    build_prompt, build_summary_prompt, direction_label, format_score_cell, head_lines,
    outcome_label, push_history_table, push_path_list, tail_lines, BestSnapshot, PromptContext,
    SummaryContext,
};
use autorize::score::Score;
use autorize::storage::{GuidanceEntry, IterationRecord, Outcome};
use autorize::time::{Duration, Timestamp};
use chrono::{TimeZone, Utc};

fn sc(v: f64) -> Score {
    Score { bits: v.to_bits() }
}

fn moment(y: i32, mo: u32, d: u32, h: u32, mi: u32) -> Timestamp {
    let t = Utc.with_ymd_and_hms(y, mo, d, h, mi, 0).unwrap();
    Timestamp::from_unix(t.timestamp(), 0)
}

fn rec(iter: u64, outcome: Outcome, score: Option<f64>, notes: &str) -> IterationRecord {
    rec_with_summary(iter, outcome, score, notes, "")
}

fn rec_with_summary(
    iter: u64,
    outcome: Outcome,
    score: Option<f64>,
    notes: &str,
    summary: &str,
) -> IterationRecord {
    IterationRecord {
        iter,
        started_at: moment(2026, 5, 20, 8, 0),
        ended_at: moment(2026, 5, 20, 8, 1),
        outcome,
        score: score.map(sc),
        best_so_far: score.map(sc),
        agent_exit: Some(0),
        agent_killed_by_budget: false,
        diff_lines: 1,
        notes: notes.to_string(),
        summary: summary.to_string(),
    }
}

fn full_boundaries() -> Boundaries {
    Boundaries {
        allow_paths: vec!["src/**/*".to_string(), "README.md".to_string()],
        deny_paths: vec![".autorize/**".to_string(), "*.lock".to_string()],
    }
}

#[test]
fn prompt_renders_program_md_verbatim() {
    let b = Boundaries::default();
    let ctx = PromptContext {
        program_md: "# My program\n\nDo something useful.\n",
        boundaries: &b,
        guidance: &vec![],
        recent: &vec![],
        best: None,
        iter: 1,
        budget: Duration::from_secs(60),
        direction: Direction::Min,
    };
    let p = build_prompt(&ctx);
    assert!(p.contains("# My program"), "program text missing: {p}");
    assert!(p.contains("Do something useful."), "body missing: {p}");
}

#[test]
fn prompt_renders_boundaries_lists() {
    let b = full_boundaries();
    let ctx = PromptContext {
        program_md: "",
        boundaries: &b,
        guidance: &vec![],
        recent: &vec![],
        best: None,
        iter: 1,
        budget: Duration::from_secs(60),
        direction: Direction::Min,
    };
    let p = build_prompt(&ctx);
    assert!(p.contains("- src/**/*"), "allow path missing: {p}");
    assert!(p.contains("- README.md"), "allow path missing: {p}");
    assert!(p.contains("- .autorize/**"), "deny path missing: {p}");
    assert!(p.contains("- *.lock"), "deny path missing: {p}");
}

#[test]
fn prompt_no_history_no_best_message() {
    let b = Boundaries::default();
    let ctx = PromptContext {
        program_md: "p",
        boundaries: &b,
        guidance: &vec![],
        recent: &vec![],
        best: None,
        iter: 1,
        budget: Duration::from_secs(60),
        direction: Direction::Min,
    };
    let p = build_prompt(&ctx);
    assert!(p.contains("No prior iterations."), "missing: {p}");
    assert!(p.contains("No improvement merged yet."), "missing: {p}");
}

#[test]
fn prompt_with_history_table() {
    let b = Boundaries::default();
    let hist = vec![
        rec(
            7,
            Outcome::Merged,
            Some(3.14210),
            "improved: 3.14210 from 3.15000",
        ),
        rec(
            6,
            Outcome::Discarded,
            Some(3.15000),
            "regressed: 3.15000 vs best 3.14210 (min)",
        ),
        rec(5, Outcome::Noop, None, "no changes produced"),
    ];
    let ctx = PromptContext {
        program_md: "p",
        boundaries: &b,
        guidance: &vec![],
        recent: &hist,
        best: None,
        iter: 8,
        budget: Duration::from_secs(300),
        direction: Direction::Min,
    };
    let p = build_prompt(&ctx);
    assert!(
        p.contains("| iter | outcome   | score      | reason |"),
        "header missing: {p}"
    );
    assert!(
        p.contains("|------|-----------|------------|--------|"),
        "separator missing: {p}"
    );
    assert!(
        p.contains("|    7 | merged    |    3.14210 | improved: 3.14210 from 3.15000 |"),
        "row 7 missing: {p}"
    );
    assert!(
        p.contains(
            "|    6 | discarded |    3.15000 | regressed: 3.15000 vs best 3.14210 (min) |"
        ),
        "row 6 missing: {p}"
    );
    assert!(
        p.contains("|    5 | noop      |          \u{2014} | no changes produced |"),
        "row 5 missing: {p}"
    );
}

#[test]
fn prompt_renders_recent_summaries_section() {
    let b = Boundaries::default();
    let hist = vec![
        rec_with_summary(
            6,
            Outcome::Discarded,
            Some(3.15),
            "regressed: ...",
            "Tuned the Leibniz series term count up; slower convergence regressed the score.",
        ),
        // A record with no summary must not appear in the list.
        rec(5, Outcome::Noop, None, "no changes produced"),
        rec_with_summary(
            7,
            Outcome::Merged,
            Some(std::f64::consts::PI),
            "improved: ...",
            "Switched to a spigot algorithm, improving the digit accuracy.",
        ),
    ];
    let ctx = PromptContext {
        program_md: "p",
        boundaries: &b,
        guidance: &vec![],
        recent: &hist,
        best: None,
        iter: 8,
        budget: Duration::from_secs(60),
        direction: Direction::Min,
    };
    let p = build_prompt(&ctx);
    assert!(
        p.contains("## Recent attempt summaries"),
        "summaries section missing: {p}"
    );
    assert!(
        p.contains("- iter 6 (discarded): Tuned the Leibniz series term count up;"),
        "iter 6 summary missing: {p}"
    );
    assert!(
        p.contains("- iter 7 (merged): Switched to a spigot algorithm,"),
        "iter 7 summary missing: {p}"
    );
    // The summary-less noop iteration must not appear in the list.
    assert!(
        !p.contains("- iter 5 "),
        "iter 5 (no summary) should be omitted: {p}"
    );
}

#[test]
fn prompt_omits_summaries_section_when_all_empty() {
    let b = Boundaries::default();
    let hist = vec![rec(
        7,
        Outcome::Merged,
        Some(std::f64::consts::PI),
        "improved: ...",
    )];
    let ctx = PromptContext {
        program_md: "p",
        boundaries: &b,
        guidance: &vec![],
        recent: &hist,
        best: None,
        iter: 8,
        budget: Duration::from_secs(60),
        direction: Direction::Min,
    };
    let p = build_prompt(&ctx);
    assert!(
        !p.contains("## Recent attempt summaries"),
        "summaries section should be omitted when no summaries: {p}"
    );
}

fn guide(text: &str, at: Option<u64>) -> GuidanceEntry {
    GuidanceEntry {
        ts: moment(2026, 5, 20, 8, 0),
        added_at_iter: at,
        text: text.to_string(),
    }
}

#[test]
fn prompt_renders_operator_guidance() {
    let b = Boundaries::default();
    let guidance = vec![
        guide(
            "try a spigot algorithm instead of tuning the series",
            Some(6),
        ),
        guide("keep the file a single line", None),
    ];
    let ctx = PromptContext {
        program_md: "p",
        boundaries: &b,
        guidance: &guidance,
        recent: &vec![],
        best: None,
        iter: 8,
        budget: Duration::from_secs(60),
        direction: Direction::Min,
    };
    let p = build_prompt(&ctx);
    assert!(p.contains("## Operator guidance"), "section missing: {p}");
    assert!(p.contains("authoritative"), "framing missing: {p}");
    assert!(
        p.contains("- (since iter 6) try a spigot algorithm instead of tuning the series"),
        "iter-tagged entry missing: {p}"
    );
    // A None added_at_iter renders without the "(since iter ...)" prefix.
    assert!(
        p.contains("- keep the file a single line"),
        "untagged entry missing: {p}"
    );
    assert!(
        !p.contains("(since iter ) keep"),
        "None entry should not render an empty iter tag: {p}"
    );
}

#[test]
fn prompt_omits_operator_guidance_when_empty() {
    let b = Boundaries::default();
    let ctx = PromptContext {
        program_md: "p",
        boundaries: &b,
        guidance: &vec![],
        recent: &vec![],
        best: None,
        iter: 1,
        budget: Duration::from_secs(60),
        direction: Direction::Min,
    };
    let p = build_prompt(&ctx);
    assert!(
        !p.contains("## Operator guidance"),
        "guidance section should be omitted when empty: {p}"
    );
}

#[test]
fn summary_prompt_includes_outcome_diff_and_stdio() {
    let ctx = SummaryContext {
        iter: 7,
        outcome: Outcome::Merged,
        score: Some(sc(std::f64::consts::PI)),
        best: Some((sc(3.15), 6)),
        direction: Direction::Min,
        diff: "diff --git a/x b/x\n-old\n+new\n",
        stdout_tail: "agent did a thing\n",
        stderr_tail: "",
    };
    let p = build_summary_prompt(&ctx);
    assert!(p.contains("1-2 sentences"), "instruction missing: {p}");
    assert!(p.contains("outcome: merged"), "outcome missing: {p}");
    assert!(p.contains("score: 3.14159"), "score missing: {p}");
    assert!(
        p.contains("best so far: iter 6, score 3.15000"),
        "best missing: {p}"
    );
    assert!(p.contains("```diff\n"), "diff fence missing: {p}");
    assert!(p.contains("+new"), "diff body missing: {p}");
    assert!(p.contains("agent did a thing"), "stdout tail missing: {p}");
    // Empty stderr renders no stderr section.
    assert!(
        !p.contains("## Agent stderr"),
        "stderr section should be omitted: {p}"
    );
}

#[test]
fn summary_prompt_tails_long_stdout() {
    let stdout: String = (0..200).map(|i| format!("line {i}\n")).collect();
    let ctx = SummaryContext {
        iter: 1,
        outcome: Outcome::Discarded,
        score: Some(sc(1.0)),
        best: None,
        direction: Direction::Max,
        diff: "diff\n",
        stdout_tail: &stdout,
        stderr_tail: "",
    };
    let p = build_summary_prompt(&ctx);
    assert!(
        p.contains("earlier lines truncated"),
        "tail marker missing: {p}"
    );
    assert!(
        p.contains("line 199"),
        "last line should survive the tail: {p}"
    );
    assert!(
        !p.contains("line 0\n"),
        "first line should be truncated: {p}"
    );
}

#[test]
fn prompt_with_best_diff_block() {
    let b = Boundaries::default();
    let diff = "diff --git a/x b/x\n--- a/x\n+++ b/x\n@@ -1 +1 @@\n-old\n+new\n";
    let best = BestSnapshot {
        iter: 5,
        score: sc(std::f64::consts::PI),
        diff,
    };
    let ctx = PromptContext {
        program_md: "p",
        boundaries: &b,
        guidance: &vec![],
        recent: &vec![],
        best: Some(best),
        iter: 8,
        budget: Duration::from_secs(60),
        direction: Direction::Min,
    };
    let p = build_prompt(&ctx);
    assert!(p.contains("```diff\n"), "no opening fence: {p}");
    assert!(p.contains(diff), "diff body missing: {p}");
    assert!(p.contains("\n```\n"), "no closing fence: {p}");
    assert!(
        p.contains("iter 5, score 3.14159 (direction: min)."),
        "best line missing: {p}"
    );
}

#[test]
fn prompt_snapshot() {
    let b = full_boundaries();
    let hist = vec![
        rec(
            7,
            Outcome::Merged,
            Some(3.14210),
            "improved: 3.14210 from 3.15000",
        ),
        rec(
            6,
            Outcome::Discarded,
            Some(3.15000),
            "regressed: 3.15000 vs best 3.14210 (min)",
        ),
    ];
    let diff = "diff --git a/value.txt b/value.txt\n--- a/value.txt\n+++ b/value.txt\n@@ -1 +1 @@\n-3.10\n+3.14\n";
    let best = BestSnapshot {
        iter: 5,
        score: sc(std::f64::consts::PI),
        diff,
    };
    let ctx = PromptContext {
        program_md: "# Pi experiment\n\nMake value.txt closer to pi.\n",
        boundaries: &b,
        guidance: &vec![],
        recent: &hist,
        best: Some(best),
        iter: 8,
        budget: Duration::from_secs(300),
        direction: Direction::Min,
    };
    let got = build_prompt(&ctx);
    let expected = "\
# Pi experiment

Make value.txt closer to pi.

---

## Boundaries

You should focus your edits on these paths (PROMPT-ONLY, not enforced):
- src/**/*
- README.md

You MUST NOT modify these paths (ENFORCED \u{2014} touching them discards the iteration):
- .autorize/**
- *.lock

## Recent iterations

| iter | outcome   | score      | reason |
|------|-----------|------------|--------|
|    7 | merged    |    3.14210 | improved: 3.14210 from 3.15000 |
|    6 | discarded |    3.15000 | regressed: 3.15000 vs best 3.14210 (min) |

## Best iteration so far

iter 5, score 3.14159 (direction: min).

Diff:

```diff
diff --git a/value.txt b/value.txt
--- a/value.txt
+++ b/value.txt
@@ -1 +1 @@
-3.10
+3.14
```

## This iteration

You are working on iteration 8. Hard wall-clock budget: 300s.
The objective direction is `min` \u{2014} lower scores are better.

Just edit files in the working tree \u{2014} do NOT run `git add`, `git commit`, or otherwise create commits yourself. autorize captures your uncommitted changes and commits them on your behalf.
";
    assert_eq!(got, expected, "got:\n{got}");
}

#[test]
fn labels_are_lowercase_words() {
    assert_eq!(outcome_label(Outcome::Merged), "merged");
    assert_eq!(outcome_label(Outcome::Discarded), "discarded");
    assert_eq!(outcome_label(Outcome::Noop), "noop");
    assert_eq!(outcome_label(Outcome::Invalid), "invalid");
    assert_eq!(outcome_label(Outcome::Killed), "killed");
    assert_eq!(outcome_label(Outcome::Denied), "denied");
    assert_eq!(direction_label(Direction::Min), "min");
    assert_eq!(direction_label(Direction::Max), "max");
}

#[test]
fn score_cells_have_five_decimals() {
    assert_eq!(format_score_cell(Some(sc(2.5))), "2.50000");
    assert_eq!(format_score_cell(Some(sc(-0.000004))), "-0.00000");
    assert_eq!(format_score_cell(None), "\u{2014}");
}

#[test]
fn path_lists_are_bulleted_or_none() {
    let mut s = String::from("x\n");
    push_path_list(&mut s, &vec![]);
    assert_eq!(s, "x\n- (none)\n");
    push_path_list(&mut s, &vec!["a".to_string(), "b/c".to_string()]);
    assert_eq!(s, "x\n- (none)\n- a\n- b/c\n");
}

#[test]
fn history_rows_are_padded_and_never_cut() {
    let mut s = String::new();
    push_history_table(&mut s, &vec![rec(12345, Outcome::Killed, Some(-123456.0), "a | b")]);
    assert_eq!(
        s,
        "| iter | outcome   | score      | reason |\n\
         |------|-----------|------------|--------|\n\
         | 12345 | killed    | -123456.00000 | a | b |\n"
    );
}

#[test]
fn short_texts_pass_through_whole() {
    assert_eq!(head_lines("a\nb\n", 2), "a\nb\n");
    assert_eq!(tail_lines("a\nb\n", 2), "a\nb\n");
    assert_eq!(head_lines("", 0), "");
}

#[test]
fn long_texts_are_cut_with_a_marker() {
    let h = head_lines("a\nb\nc\n", 2);
    assert_eq!(h, "a\nb\n... (1 more lines truncated)\n");
    let t = tail_lines("a\nb\nc", 1);
    assert_eq!(t, "... (2 earlier lines truncated)\nc\n");
}

#[test]
fn prompt_begins_with_the_program_text() {
    let b = Boundaries::default();
    let guidance = vec![guide("steer", None)];
    let ctx = PromptContext {
        program_md: "first words",
        boundaries: &b,
        guidance: &guidance,
        recent: &vec![],
        best: None,
        iter: 3,
        budget: Duration::from_secs(7),
        direction: Direction::Max,
    };
    let p = build_prompt(&ctx);
    assert!(p.starts_with("first words"), "{p}");
    assert!(p.contains("The objective direction is `max` \u{2014} higher scores are better."), "{p}");
    assert!(p.contains("Hard wall-clock budget: 7s."), "{p}");
}
