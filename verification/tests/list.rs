use autorize::cli::list::{best_clause, render, sorted_records, ColorChoice};
use autorize::score::Score;
use autorize::storage::{CurrentStep, IterationRecord, Outcome, StateSnapshot};
use autorize::time::Timestamp;
use chrono::{TimeZone, Utc};

fn sc(v: f64) -> Score {
    Score { bits: v.to_bits() }
}

fn moment(h: u32, mi: u32) -> Timestamp {
    let t = Utc.with_ymd_and_hms(2026, 5, 20, h, mi, 0).unwrap();
    Timestamp::from_unix(t.timestamp(), 0)
}

fn rec(iter: u64, outcome: Outcome, score: Option<f64>, summary: &str) -> IterationRecord {
    IterationRecord {
        iter,
        started_at: moment(8, 0),
        ended_at: moment(8, 1),
        outcome,
        score: score.map(sc),
        best_so_far: score.map(sc),
        agent_exit: Some(0),
        agent_killed_by_budget: false,
        diff_lines: 4,
        notes: String::new(),
        summary: summary.to_string(),
    }
}

fn state_with_best(best_iter: Option<u64>, best_score: Option<f64>) -> StateSnapshot {
    let now = moment(8, 0);
    StateSnapshot {
        experiment: "pi".to_string(),
        branch: "autorize/pi".to_string(),
        base_commit: "abc1234".to_string(),
        iter_in_progress: None,
        current_step: CurrentStep::Idle,
        best_score: best_score.map(sc),
        best_iter,
        started_at: now,
        deadline: moment(9, 0),
        iterations_completed: 0,
        run_iterations_completed: 0,
        consecutive_noops: 0,
    }
}

#[test]
fn render_zero_iterations() {
    let out = render("pi", &vec![], &None, false);
    assert!(out.contains("# Experiment: pi"), "title missing: {out}");
    assert!(
        out.contains("_No iterations yet._"),
        "placeholder missing: {out}"
    );
    assert!(!out.contains("## Iteration"), "no sections expected: {out}");
}

#[test]
fn render_zero_iterations_ignores_state() {
    // Even with a state carrying a best, zero records => the empty placeholder.
    let st = state_with_best(Some(5), Some(1.23456));
    let out = render("pi", &vec![], &Some(st), false);
    assert!(
        out.contains("_No iterations yet._"),
        "placeholder missing: {out}"
    );
    assert!(!out.contains("best"), "no meta line expected: {out}");
}

#[test]
fn render_one_iteration_with_best() {
    let st = state_with_best(Some(1), Some(0.09920));
    let recs = vec![rec(
        1,
        Outcome::Merged,
        Some(0.09920),
        "Nudged value.txt toward pi.",
    )];
    let out = render("pi", &recs, &Some(st), false);
    assert!(out.contains("# Experiment: pi"), "title missing: {out}");
    assert!(
        out.contains("_1 iterations · best 0.09920 (iter 1)_"),
        "meta line wrong: {out}"
    );
    assert!(
        out.contains("## Iteration 1 \u{2014} merged \u{b7} 0.09920"),
        "section heading wrong: {out}"
    );
    assert!(
        out.contains("Nudged value.txt toward pi."),
        "summary missing: {out}"
    );
}

#[test]
fn render_meta_omits_best_when_state_absent() {
    let recs = vec![rec(1, Outcome::Merged, Some(0.5), "did a thing")];
    let out = render("pi", &recs, &None, false);
    assert!(out.contains("_1 iterations_"), "meta line wrong: {out}");
    assert!(!out.contains("best"), "best clause should be absent: {out}");
}

#[test]
fn render_several_oldest_first_with_outcomes_and_scores() {
    let st = state_with_best(Some(3), Some(std::f64::consts::PI));
    // Deliberately out of order on input to prove the renderer sorts.
    let recs = vec![
        rec(3, Outcome::Merged, Some(std::f64::consts::PI), "best"),
        rec(1, Outcome::Merged, Some(3.20000), "first"),
        rec(4, Outcome::Noop, None, "no diff"),
        rec(2, Outcome::Discarded, Some(3.50000), "regressed"),
    ];
    let out = render("pi", &recs, &Some(st), false);
    // Oldest-first ordering: iter 1 must appear before iter 4.
    let p4 = out.find("## Iteration 4").expect("iter 4 missing");
    let p1 = out.find("## Iteration 1").expect("iter 1 missing");
    assert!(p1 < p4, "expected oldest-first ordering: {out}");
    // Outcome labels and 5-decimal scores.
    assert!(
        out.contains("## Iteration 3 \u{2014} merged \u{b7} 3.14159"),
        "{out}"
    );
    assert!(
        out.contains("## Iteration 2 \u{2014} discarded \u{b7} 3.50000"),
        "{out}"
    );
    // None score renders as the em-dash.
    assert!(
        out.contains("## Iteration 4 \u{2014} noop \u{b7} \u{2014}"),
        "{out}"
    );
}

#[test]
fn render_empty_summary_placeholder() {
    let recs = vec![rec(1, Outcome::Merged, Some(1.0), "")];
    let out = render("pi", &recs, &None, false);
    assert!(
        out.contains("_(no summary)_"),
        "summary placeholder missing: {out}"
    );
}

#[test]
fn render_plain_has_no_ansi_escapes() {
    let st = state_with_best(Some(2), Some(1.0));
    let recs = vec![
        rec(1, Outcome::Merged, Some(2.0), "a"),
        rec(2, Outcome::Denied, Some(1.0), ""),
    ];
    let out = render("pi", &recs, &Some(st), false);
    assert!(
        !out.contains('\u{1b}'),
        "plain output must have no ANSI escapes: {out:?}"
    );
}

#[test]
fn render_colorized_has_ansi_escapes() {
    let st = state_with_best(Some(1), Some(2.0));
    let recs = vec![rec(1, Outcome::Merged, Some(2.0), "a")];
    let out = render("pi", &recs, &Some(st), true);
    assert!(
        out.contains('\u{1b}'),
        "colorized output must contain ANSI escapes"
    );
    // The underlying markdown text still survives the styling.
    assert!(
        out.contains("Experiment: pi"),
        "title text missing: {out:?}"
    );
    assert!(out.contains("merged"), "outcome text missing: {out:?}");
}

#[test]
fn lists_are_sorted_and_keep_equal_numbers_in_order() {
    let recs = vec![
        rec(3, Outcome::Noop, None, "x"),
        rec(1, Outcome::Noop, None, "a"),
        rec(1, Outcome::Killed, None, "b"),
    ];
    let sorted = sorted_records(&recs);
    let seen: Vec<(u64, &str)> = sorted.iter().map(|r| (r.iter, r.summary.as_str())).collect();
    assert_eq!(seen, vec![(1, "a"), (1, "b"), (3, "x")]);
}

#[test]
fn plain_lists_are_exact() {
    let st = state_with_best(Some(1), Some(2.0));
    let recs = vec![rec(1, Outcome::Merged, Some(2.0), "a")];
    assert_eq!(
        render("pi", &recs, &Some(st), false),
        "# Experiment: pi\n_1 iterations \u{b7} best 2.00000 (iter 1)_\n\n## Iteration 1 \u{2014} merged \u{b7} 2.00000\na\n"
    );
}

#[test]
fn styles_follow_the_outcome() {
    let styled = |o: Outcome| render("pi", &vec![rec(1, o, None, "s")], &None, true);
    assert!(styled(Outcome::Merged).contains("\u{1b}[32mmerged\u{1b}[39m"));
    assert!(styled(Outcome::Discarded).contains("\u{1b}[33mdiscarded\u{1b}[39m"));
    assert!(styled(Outcome::Denied).contains("\u{1b}[31mdenied\u{1b}[39m"));
    assert!(styled(Outcome::Noop).contains("\u{1b}[2mnoop\u{1b}[0m"));
    assert!(styled(Outcome::Merged).contains("\u{1b}[1m# Experiment: pi\u{1b}[0m"));
}

#[test]
fn best_clauses_need_a_score_and_an_iteration() {
    assert_eq!(best_clause(&None), None);
    assert_eq!(best_clause(&Some(state_with_best(Some(1), None))), None);
    let clause = best_clause(&Some(state_with_best(Some(7), Some(0.5)))).unwrap();
    assert!(clause.contains("best 0.50000 (iter 7)"), "{clause}");
}

#[test]
fn colour_goes_to_terminals_unless_told_otherwise() {
    assert!(ColorChoice::Auto.styles(true));
    assert!(!ColorChoice::Auto.styles(false));
    assert!(ColorChoice::Always.styles(false));
    assert!(!ColorChoice::Never.styles(true));
}
