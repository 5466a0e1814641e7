//! Every iteration of an experiment as markdown.
use vstd::prelude::*;

use crate::prompt;
use crate::score::Score;
use crate::storage::{IterationRecord, Outcome, StateSnapshot};
use crate::text;

verus! {

/// When output is styled.
#[derive(Debug, Clone, Copy, PartialEq, Eq, Structural)]
pub enum ColorChoice {
    /// Only on a terminal.
    Auto,
    /// Always.
    Always,
    /// Never.
    Never,
}

impl Default for ColorChoice {
    fn default() -> (r: ColorChoice)
        ensures
            r == ColorChoice::Auto,
    {
        ColorChoice::Auto
    }
}

impl ColorChoice {
    /// Whether output is styled.
    pub fn styles(&self, terminal: bool) -> (r: bool)
        ensures
            r == match *self {
                ColorChoice::Always => true,
                ColorChoice::Never => false,
                ColorChoice::Auto => terminal,
            },
    {
        match self {
            ColorChoice::Always => true,
            ColorChoice::Never => false,
            ColorChoice::Auto => terminal,
        }
    }
}

/// What listing takes.
#[derive(Debug)]
pub struct ListArgs {
    pub name: String,
    pub color: ColorChoice,
}

/// A text in bold, by `owo_colors::OwoColorize::bold`: between the escape
/// sequences `ESC [ 1 m` and `ESC [ 0 m`.
#[verifier::external_body]
fn bold(s: &str) -> (r: String)
    ensures
        r@ == "\x1b[1m"@ + s@ + "\x1b[0m"@,
{
    owo_colors::OwoColorize::bold(&s).to_string()
}

/// A dimmed text, by `owo_colors::OwoColorize::dimmed`: between the escape
/// sequences `ESC [ 2 m` and `ESC [ 0 m`.
#[verifier::external_body]
fn dimmed(s: &str) -> (r: String)
    ensures
        r@ == "\x1b[2m"@ + s@ + "\x1b[0m"@,
{
    owo_colors::OwoColorize::dimmed(&s).to_string()
}

/// A green text, by `owo_colors::OwoColorize::green`: between the escape
/// sequences `ESC [ 3 2 m` and `ESC [ 3 9 m`.
#[verifier::external_body]
fn green(s: &str) -> (r: String)
    ensures
        r@ == "\x1b[32m"@ + s@ + "\x1b[39m"@,
{
    owo_colors::OwoColorize::green(&s).to_string()
}

/// A yellow text, by `owo_colors::OwoColorize::yellow`: between the escape
/// sequences `ESC [ 3 3 m` and `ESC [ 3 9 m`.
#[verifier::external_body]
fn yellow(s: &str) -> (r: String)
    ensures
        r@ == "\x1b[33m"@ + s@ + "\x1b[39m"@,
{
    owo_colors::OwoColorize::yellow(&s).to_string()
}

/// A red text, by `owo_colors::OwoColorize::red`: between the escape sequences
/// `ESC [ 3 1 m` and `ESC [ 3 9 m`.
#[verifier::external_body]
fn red(s: &str) -> (r: String)
    ensures
        r@ == "\x1b[31m"@ + s@ + "\x1b[39m"@,
{
    owo_colors::OwoColorize::red(&s).to_string()
}

/// A text in bold, where output is styled.
pub open spec fn bolded(s: Seq<char>, styled: bool) -> Seq<char> {
    if styled {
        "\x1b[1m"@ + s + "\x1b[0m"@
    } else {
        s
    }
}

/// A dimmed text, where output is styled.
pub open spec fn dim(s: Seq<char>, styled: bool) -> Seq<char> {
    if styled {
        "\x1b[2m"@ + s + "\x1b[0m"@
    } else {
        s
    }
}

/// The word for an outcome, in its colour where output is styled.
pub open spec fn colored(o: Outcome, styled: bool) -> Seq<char> {
    let word = prompt::outcome_word(o);
    if !styled {
        word
    } else {
        match o {
            Outcome::Merged => "\x1b[32m"@ + word + "\x1b[39m"@,
            Outcome::Discarded => "\x1b[33m"@ + word + "\x1b[39m"@,
            Outcome::Noop => "\x1b[2m"@ + word + "\x1b[0m"@,
            Outcome::Invalid | Outcome::Killed | Outcome::Denied => "\x1b[31m"@ + word
                + "\x1b[39m"@,
        }
    }
}

fn maybe_bold(s: &str, colorize: bool) -> (r: String)
    ensures
        r@ == bolded(s@, colorize),
{
    if colorize {
        bold(s)
    } else {
        text::owned(s)
    }
}

fn maybe_dim(s: &str, colorize: bool) -> (r: String)
    ensures
        r@ == dim(s@, colorize),
{
    if colorize {
        dimmed(s)
    } else {
        text::owned(s)
    }
}

fn styled_outcome(o: Outcome, colorize: bool) -> (r: String)
    ensures
        r@ == colored(o, colorize),
{
    let label = prompt::outcome_label(o);
    if !colorize {
        return text::owned(label);
    }
    match o {
        Outcome::Merged => green(label),
        Outcome::Discarded => yellow(label),
        Outcome::Noop => dimmed(label),
        Outcome::Invalid | Outcome::Killed | Outcome::Denied => red(label),
    }
}

/// The best score in words, where one is known.
pub open spec fn best_clause_text(state: Option<StateSnapshot>) -> Option<Seq<char>> {
    match state {
        Some(s) => match (s.best_iter, s.best_score) {
            (Some(i), Some(v)) => Some(
                "best "@ + prompt::score_cell(Some(v)) + " (iter "@ + text::dec(i as nat) + ")"@,
            ),
            _ => None,
        },
        None => None,
    }
}

/// The best score in words, where one is known.
pub fn best_clause(state: &Option<StateSnapshot>) -> (r: Option<String>)
    ensures
        match r {
            Some(t) => best_clause_text(*state) == Some(t@),
            None => best_clause_text(*state) is None,
        },
{
    match state {
        Some(s) => match (s.best_iter, s.best_score) {
            (Some(i), Some(v)) => {
                let mut out = text::owned("best ");
                out.push_str(prompt::format_score_cell(Some(v)).as_str());
                out.push_str(" (iter ");
                out.push_str(text::dec_string(i).as_str());
                out.push_str(")");
                Some(out)
            },
            _ => None,
        },
        None => None,
    }
}

/// Where a record goes in a list ordered by number: behind those of no greater
/// number.
pub open spec fn place(sorted: Seq<IterationRecord>, iter: u64) -> int
    decreases sorted.len(),
{
    if sorted.len() == 0 || sorted.last().iter <= iter {
        sorted.len() as int
    } else {
        place(sorted.drop_last(), iter)
    }
}

/// The records in the order of their numbers, those with one number in the
/// order they had.
pub open spec fn by_number(records: Seq<IterationRecord>) -> Seq<IterationRecord>
    decreases records.len(),
{
    if records.len() == 0 {
        Seq::empty()
    } else {
        let sorted = by_number(records.drop_last());
        sorted.insert(place(sorted, records.last().iter), records.last())
    }
}

/// Whether records are in the order of their numbers.
pub open spec fn ascending(s: Seq<IterationRecord>) -> bool {
    forall|i: int, j: int| 0 <= i < j < s.len() ==> (#[trigger] s[i]).iter <= (#[trigger] s[j]).iter
}

proof fn lemma_place(sorted: Seq<IterationRecord>, iter: u64)
    requires
        ascending(sorted),
    ensures
        0 <= place(sorted, iter) <= sorted.len(),
        forall|k: int| 0 <= k < place(sorted, iter) ==> (#[trigger] sorted[k]).iter <= iter,
        forall|k: int| place(sorted, iter) <= k < sorted.len() ==> (#[trigger] sorted[k]).iter > iter,
    decreases sorted.len(),
{
    if sorted.len() > 0 {
        let init = sorted.drop_last();
        assert(ascending(init)) by {
            assert forall|i: int, j: int| 0 <= i < j < init.len() implies (#[trigger] init[i]).iter
                <= (#[trigger] init[j]).iter by {
                assert(sorted[i].iter <= sorted[j].iter);
            }
        }
        lemma_place(init, iter);
        if sorted.last().iter <= iter {
            assert forall|k: int| 0 <= k < sorted.len() implies (#[trigger] sorted[k]).iter
                <= iter by {
                if k < sorted.len() - 1 {
                    assert(sorted[k].iter <= sorted[sorted.len() - 1].iter);
                }
            }
        } else {
            assert forall|k: int| 0 <= k < place(sorted, iter) implies (#[trigger] sorted[k]).iter
                <= iter by {
                assert(init[k].iter <= iter);
            }
            assert forall|k: int| place(sorted, iter) <= k < sorted.len() implies (
            #[trigger] sorted[k]).iter > iter by {
                if k < init.len() {
                    assert(init[k].iter > iter);
                }
            }
        }
    }
}

/// A list is ordered by number and holds exactly the given records.
pub proof fn law_list_is_ordered(records: Seq<IterationRecord>)
    ensures
        by_number(records).len() == records.len(),
        ascending(by_number(records)),
        by_number(records).to_multiset() == records.to_multiset(),
    decreases records.len(),
{
    broadcast use vstd::seq_lib::group_to_multiset_ensures;

    if records.len() > 0 {
        let sorted = by_number(records.drop_last());
        let r = records.last();
        law_list_is_ordered(records.drop_last());
        lemma_place(sorted, r.iter);
        let p = place(sorted, r.iter);
        let out = sorted.insert(p, r);
        assert forall|i: int, j: int| 0 <= i < j < out.len() implies (#[trigger] out[i]).iter <= (
        #[trigger] out[j]).iter by {
            let a = if i < p {
                i
            } else {
                i - 1
            };
            let b = if j < p {
                j
            } else {
                j - 1
            };
            if i != p && j != p {
                assert(out[i] == sorted[a]);
                assert(out[j] == sorted[b]);
            } else if i == p {
                assert(out[j] == sorted[b]);
            } else {
                assert(out[i] == sorted[a]);
            }
        }
        assert(records =~= records.drop_last().push(r));
        assert(out.to_multiset() =~= records.to_multiset());
    } else {
        assert(by_number(records) =~= records);
    }
}

/// Orders records by their numbers.
pub fn sorted_records(records: &Vec<IterationRecord>) -> (r: Vec<IterationRecord>)
    ensures
        r@ == by_number(records@),
{
    let mut out: Vec<IterationRecord> = Vec::new();
    let mut i: usize = 0;
    while i < records.len()
        invariant
            i <= records.len(),
            out@ == by_number(records@.take(i as int)),
        decreases records.len() - i,
    {
        assert(records@.take(i as int + 1).drop_last() == records@.take(i as int));
        let n = records[i].iter;
        let mut p: usize = out.len();
        let ghost all = out@;
        assert(all.take(all.len() as int) == all);
        while p > 0 && out[p - 1].iter > n
            invariant
                p <= out.len(),
                out@ == all,
                place(all, n) == place(all.take(p as int), n),
            decreases p,
        {
            assert(all.take(p as int).drop_last() == all.take(p as int - 1));
            p -= 1;
        }
        assert(place(all, n) == p) by {
            if p > 0 {
                assert(all.take(p as int).last() == all[p as int - 1]);
            }
        }
        out.insert(p, records[i].clone());
        i += 1;
    }
    assert(records@.take(records@.len() as int) == records@);
    out
}

/// The section of one iteration.
pub open spec fn section(r: IterationRecord, styled: bool) -> Seq<char> {
    "\n"@ + bolded("## Iteration "@ + text::dec(r.iter as nat) + " \u{2014}"@, styled) + " "@
        + colored(r.outcome, styled) + " \u{b7} "@ + prompt::score_cell(r.score) + "\n"@ + (
    if r.summary@.len() == 0 {
        dim("_(no summary)_"@, styled)
    } else {
        r.summary@
    }) + "\n"@
}

fn section_text(r: &IterationRecord, colorize: bool) -> (t: String)
    ensures
        t@ == section(*r, colorize),
{
    let mut head = text::owned("## Iteration ");
    head.push_str(text::dec_string(r.iter).as_str());
    head.push_str(" \u{2014}");
    let mut s = text::owned("\n");
    s.push_str(maybe_bold(head.as_str(), colorize).as_str());
    s.push_str(" ");
    s.push_str(styled_outcome(r.outcome, colorize).as_str());
    s.push_str(" \u{b7} ");
    s.push_str(prompt::format_score_cell(r.score).as_str());
    s.push_str("\n");
    if text::chars_of(r.summary.as_str()).len() == 0 {
        s.push_str(maybe_dim("_(no summary)_", colorize).as_str());
    } else {
        s.push_str(r.summary.as_str());
    }
    s.push_str("\n");
    s
}

/// The sections of iterations.
pub open spec fn sections(records: Seq<IterationRecord>, styled: bool) -> Seq<char>
    decreases records.len(),
{
    if records.len() == 0 {
        Seq::empty()
    } else {
        sections(records.drop_last(), styled) + section(records.last(), styled)
    }
}

/// The line below the title.
pub open spec fn meta_text(n: nat, clause: Option<Seq<char>>) -> Seq<char> {
    match clause {
        Some(c) => "_"@ + text::dec(n) + " iterations \u{b7} "@ + c + "_"@,
        None => "_"@ + text::dec(n) + " iterations_"@,
    }
}

/// The list: a title, a line on all iterations, and a section for each, the
/// oldest first.
pub open spec fn list_text(
    name: Seq<char>,
    records: Seq<IterationRecord>,
    state: Option<StateSnapshot>,
    styled: bool,
) -> Seq<char> {
    let title = bolded("# Experiment: "@ + name, styled) + "\n"@;
    if records.len() == 0 {
        title + dim("_No iterations yet._"@, styled) + "\n"@
    } else {
        title + dim(meta_text(records.len(), best_clause_text(state)), styled) + "\n"@ + sections(
            by_number(records),
            styled,
        )
    }
}

/// Writes the list.
pub fn render(
    name: &str,
    records: &Vec<IterationRecord>,
    state: &Option<StateSnapshot>,
    colorize: bool,
) -> (r: String)
    ensures
        r@ == list_text(name@, records@, *state, colorize),
{
    let mut title = text::owned("# Experiment: ");
    title.push_str(name);
    let mut s = maybe_bold(title.as_str(), colorize);
    s.push_str("\n");
    if records.len() == 0 {
        s.push_str(maybe_dim("_No iterations yet._", colorize).as_str());
        s.push_str("\n");
        return s;
    }
    let mut meta = text::owned("_");
    meta.push_str(text::dec_string(records.len() as u64).as_str());
    match best_clause(state) {
        Some(clause) => {
            meta.push_str(" iterations \u{b7} ");
            meta.push_str(clause.as_str());
            meta.push_str("_");
        },
        None => {
            meta.push_str(" iterations_");
        },
    }
    s.push_str(maybe_dim(meta.as_str(), colorize).as_str());
    s.push_str("\n");
    let ordered = sorted_records(records);
    let ghost head = s@;
    let mut i: usize = 0;
    assert(head + sections(ordered@.take(0), colorize) =~= head);
    while i < ordered.len()
        invariant
            i <= ordered.len(),
            s@ == head + sections(ordered@.take(i as int), colorize),
        decreases ordered.len() - i,
    {
        assert(ordered@.take(i as int + 1).drop_last() == ordered@.take(i as int));
        s.push_str(section_text(&ordered[i], colorize).as_str());
        assert(s@ =~= head + sections(ordered@.take(i as int + 1), colorize));
        i += 1;
    }
    assert(ordered@.take(ordered@.len() as int) == ordered@);
    s
}

/// A text without escape characters.
pub open spec fn unescaped(s: Seq<char>) -> bool {
    forall|i: int| 0 <= i < s.len() ==> #[trigger] s[i] != '\x1b'
}

proof fn lemma_join_unescaped(a: Seq<char>, b: Seq<char>)
    requires
        unescaped(a),
        unescaped(b),
    ensures
        unescaped(a + b),
{
    assert forall|i: int| 0 <= i < (a + b).len() implies #[trigger] (a + b)[i] != '\x1b' by {
        if i < a.len() {
            assert(a[i] != '\x1b');
        } else {
            assert(b[i - a.len()] != '\x1b');
        }
    }
}

proof fn lemma_dec_unescaped(n: nat)
    ensures
        unescaped(text::dec(n)),
{
    text::law_dec_reads_back(n);
    assert forall|i: int| 0 <= i < text::dec(n).len() implies #[trigger] text::dec(n)[i]
        != '\x1b' by {
        assert(text::is_digit(text::dec(n)[i]));
    }
}

proof fn lemma_score_unescaped(s: Option<Score>)
    ensures
        unescaped(prompt::score_cell(s)),
{
    reveal_strlit("\u{2014}");
    if let Some(v) = s {
        reveal_strlit("NaN");
        reveal_strlit("inf");
        let unit = vstd::arithmetic::power::pow(10, 5) as nat;
        let n = crate::score::fixed_value(crate::score::magnitude(v.bits), 5);
        let sign = if v.negative() {
            seq!['-']
        } else {
            Seq::<char>::empty()
        };
        let low = text::dec(n % unit);
        lemma_dec_unescaped(n / unit);
        lemma_dec_unescaped(n % unit);
        let zeros = text::copies('0', text::missing(low, 5));
        lemma_join_unescaped(zeros, low);
        let whole = text::dec(n / unit);
        lemma_join_unescaped(whole, seq!['.']);
        lemma_join_unescaped(whole + seq!['.'], zeros + low);
        lemma_join_unescaped(sign, whole + seq!['.'] + (zeros + low));
        lemma_join_unescaped(sign, "inf"@);
    }
}

proof fn lemma_section_unescaped(r: IterationRecord)
    requires
        unescaped(r.summary@),
    ensures
        unescaped(section(r, false)),
{
    reveal_strlit("\n");
    reveal_strlit("## Iteration ");
    reveal_strlit(" \u{2014}");
    reveal_strlit(" ");
    reveal_strlit(" \u{b7} ");
    reveal_strlit("_(no summary)_");
    reveal_strlit("merged");
    reveal_strlit("discarded");
    reveal_strlit("noop");
    reveal_strlit("invalid");
    reveal_strlit("killed");
    reveal_strlit("denied");
    let n = text::dec(r.iter as nat);
    lemma_dec_unescaped(r.iter as nat);
    let head = "## Iteration "@ + n + " \u{2014}"@;
    lemma_join_unescaped("## Iteration "@, n);
    lemma_join_unescaped("## Iteration "@ + n, " \u{2014}"@);
    let a = "\n"@ + head;
    lemma_join_unescaped("\n"@, head);
    lemma_join_unescaped(a, " "@);
    let b = a + " "@;
    let word = prompt::outcome_word(r.outcome);
    assert(unescaped(word));
    lemma_join_unescaped(b, word);
    let c = b + word;
    lemma_join_unescaped(c, " \u{b7} "@);
    let d = c + " \u{b7} "@;
    lemma_score_unescaped(r.score);
    lemma_join_unescaped(d, prompt::score_cell(r.score));
    let e = d + prompt::score_cell(r.score);
    lemma_join_unescaped(e, "\n"@);
    let f = e + "\n"@;
    let last = if r.summary@.len() == 0 {
        "_(no summary)_"@
    } else {
        r.summary@
    };
    lemma_join_unescaped(f, last);
    lemma_join_unescaped(f + last, "\n"@);
}

proof fn lemma_sections_unescaped(records: Seq<IterationRecord>)
    requires
        forall|k: int| 0 <= k < records.len() ==> unescaped((#[trigger] records[k]).summary@),
    ensures
        unescaped(sections(records, false)),
    decreases records.len(),
{
    if records.len() > 0 {
        let init = records.drop_last();
        assert forall|k: int| 0 <= k < init.len() implies unescaped(
            (#[trigger] init[k]).summary@,
        ) by {
            assert(unescaped(records[k].summary@));
        }
        lemma_sections_unescaped(init);
        assert(unescaped(records[records.len() - 1].summary@));
        lemma_section_unescaped(records.last());
        lemma_join_unescaped(sections(init, false), section(records.last(), false));
    }
}

/// A list that is not styled has no escape sequences: none but what the name or
/// a summary brings in.
pub proof fn law_plain_list_is_unescaped(
    name: Seq<char>,
    records: Seq<IterationRecord>,
    state: Option<StateSnapshot>,
)
    requires
        unescaped(name),
        forall|k: int| 0 <= k < records.len() ==> unescaped((#[trigger] records[k]).summary@),
    ensures
        unescaped(list_text(name, records, state, false)),
{
    reveal_strlit("\n");
    reveal_strlit("# Experiment: ");
    reveal_strlit("_No iterations yet._");
    lemma_join_unescaped("# Experiment: "@, name);
    lemma_join_unescaped("# Experiment: "@ + name, "\n"@);
    let title = "# Experiment: "@ + name + "\n"@;
    lemma_join_unescaped(title, "_No iterations yet._"@);
    lemma_join_unescaped(title + "_No iterations yet._"@, "\n"@);
    lemma_meta_unescaped(records.len(), state);
    let meta = meta_text(records.len(), best_clause_text(state));
    lemma_join_unescaped(title, meta);
    lemma_join_unescaped(title + meta, "\n"@);
    let sorted = by_number(records);
    lemma_sorted_from(records);
    lemma_sections_unescaped(sorted);
    lemma_join_unescaped(title + meta + "\n"@, sections(sorted, false));
}

proof fn lemma_meta_unescaped(n: nat, state: Option<StateSnapshot>)
    ensures
        unescaped(meta_text(n, best_clause_text(state))),
{
    reveal_strlit("_");
    reveal_strlit(" iterations \u{b7} ");
    reveal_strlit(" iterations_");
    reveal_strlit("best ");
    reveal_strlit(" (iter ");
    reveal_strlit(")");
    lemma_dec_unescaped(n);
    lemma_join_unescaped("_"@, text::dec(n));
    lemma_join_unescaped("_"@ + text::dec(n), " iterations_"@);
    if let Some(s) = state {
        if let (Some(i), Some(v)) = (s.best_iter, s.best_score) {
            lemma_score_unescaped(Some(v));
            lemma_dec_unescaped(i as nat);
            let cell = prompt::score_cell(Some(v));
            lemma_join_unescaped("best "@, cell);
            lemma_join_unescaped("best "@ + cell, " (iter "@);
            lemma_join_unescaped("best "@ + cell + " (iter "@, text::dec(i as nat));
            lemma_join_unescaped("best "@ + cell + " (iter "@ + text::dec(i as nat), ")"@);
            let clause = "best "@ + cell + " (iter "@ + text::dec(i as nat) + ")"@;
            lemma_join_unescaped("_"@ + text::dec(n), " iterations \u{b7} "@);
            lemma_join_unescaped("_"@ + text::dec(n) + " iterations \u{b7} "@, clause);
            lemma_join_unescaped("_"@ + text::dec(n) + " iterations \u{b7} "@ + clause, "_"@);
        }
    }
}

proof fn lemma_sorted_from(records: Seq<IterationRecord>)
    requires
        forall|k: int| 0 <= k < records.len() ==> unescaped((#[trigger] records[k]).summary@),
    ensures
        forall|k: int|
            0 <= k < by_number(records).len() ==> unescaped(
                (#[trigger] by_number(records)[k]).summary@,
            ),
    decreases records.len(),
{
    if records.len() > 0 {
        let init = records.drop_last();
        assert forall|k: int| 0 <= k < init.len() implies unescaped(
            (#[trigger] init[k]).summary@,
        ) by {
            assert(unescaped(records[k].summary@));
        }
        lemma_sorted_from(init);
        law_list_is_ordered(init);
        let sorted = by_number(init);
        lemma_place(sorted, records.last().iter);
        let p = place(sorted, records.last().iter);
        assert(unescaped(records[records.len() - 1].summary@));
        assert forall|k: int| 0 <= k < by_number(records).len() implies unescaped(
            (#[trigger] by_number(records)[k]).summary@,
        ) by {
            if k < p {
                assert(by_number(records)[k] == sorted[k]);
            } else if k > p {
                assert(by_number(records)[k] == sorted[k - 1]);
            }
        }
    }
}

proof fn lemma_sections_hold(records: Seq<IterationRecord>, styled: bool, k: int)
    requires
        0 <= k < records.len(),
    ensures
        text::occurs_in(section(records[k], styled), sections(records, styled)),
    decreases records.len(),
{
    let s = section(records[k], styled);
    let init = sections(records.drop_last(), styled);
    let last = section(records.last(), styled);
    text::lemma_occurs_whole(s);
    if k == records.len() - 1 {
        text::lemma_occurs_right(s, init, last);
    } else {
        lemma_sections_hold(records.drop_last(), styled, k);
        text::lemma_occurs_left(s, init, last);
    }
}

/// Every record is in the list, with its number, its outcome, its score and its
/// summary, or with a word in place of a summary that is missing.
pub proof fn law_every_record_is_listed(
    name: Seq<char>,
    records: Seq<IterationRecord>,
    state: Option<StateSnapshot>,
    k: int,
)
    requires
        0 <= k < records.len(),
    ensures
        ({
            let r = records[k];
            text::occurs_in(
                "\n"@ + ("## Iteration "@ + text::dec(r.iter as nat) + " \u{2014}"@) + " "@
                    + prompt::outcome_word(r.outcome) + " \u{b7} "@ + (match r.score {
                    Some(v) => crate::score::fixed_text(v, 5),
                    None => "\u{2014}"@,
                }) + "\n"@ + (if r.summary@.len() > 0 {
                    r.summary@
                } else {
                    "_(no summary)_"@
                }) + "\n"@,
                list_text(name, records, state, false),
            )
        }),
{
    broadcast use vstd::seq_lib::group_to_multiset_ensures;

    let r = records[k];
    let sorted = by_number(records);
    law_list_is_ordered(records);
    assert(records.contains(r));
    assert(records.to_multiset().count(r) > 0);
    assert(sorted.contains(r));
    let j = choose|j: int| 0 <= j < sorted.len() && sorted[j] == r;
    lemma_sections_hold(sorted, false, j);
    let title = bolded("# Experiment: "@ + name, false) + "\n"@;
    let head = title + dim(meta_text(records.len(), best_clause_text(state)), false) + "\n"@;
    text::lemma_occurs_right(section(r, false), head, sections(sorted, false));
}

/// The list begins with the experiment's name and the number of its records,
/// with the best score where one is known; an empty one says so.
pub proof fn law_list_begins_with_the_whole(
    name: Seq<char>,
    records: Seq<IterationRecord>,
    state: Option<StateSnapshot>,
)
    ensures
        text::begins_with(list_text(name, records, state, false), "# Experiment: "@ + name + "\n"@),
        records.len() == 0 ==> list_text(name, records, state, false) == "# Experiment: "@ + name
            + "\n"@ + "_No iterations yet._"@ + "\n"@,
        records.len() > 0 ==> (state matches Some(s) ==> s.best_iter matches Some(n)
            ==> s.best_score matches Some(v) ==> text::begins_with(
            list_text(name, records, state, false),
            "# Experiment: "@ + name + "\n"@ + ("_"@ + text::dec(records.len())
                + " iterations \u{b7} "@ + ("best "@ + crate::score::fixed_text(v, 5) + " (iter "@
                + text::dec(n as nat) + ")"@) + "_"@),
        )),
        records.len() > 0 && (state is None || state->Some_0.best_iter is None
            || state->Some_0.best_score is None) ==> text::begins_with(
            list_text(name, records, state, false),
            "# Experiment: "@ + name + "\n"@ + ("_"@ + text::dec(records.len()) + " iterations_"@),
        ),
{
    let title = "# Experiment: "@ + name + "\n"@;
    let all = list_text(name, records, state, false);
    if records.len() == 0 {
        let rest = "_No iterations yet._"@ + "\n"@;
        assert(all == title + rest);
        text::lemma_starts(title, rest);
    } else {
        let meta = meta_text(records.len(), best_clause_text(state));
        let s = sections(by_number(records), false);
        assert(all == title + (meta + "\n"@ + s));
        text::lemma_starts(title, meta + "\n"@ + s);
        assert(all == (title + meta) + ("\n"@ + s));
        text::lemma_starts(title + meta, "\n"@ + s);
    }
}

/// Styling adds escape sequences round a text and takes nothing away from it.
pub proof fn law_style_keeps_the_text(s: Seq<char>, o: Outcome)
    ensures
        text::occurs_in(s, bolded(s, true)),
        text::occurs_in(s, dim(s, true)),
        bolded(s, false) == s && dim(s, false) == s,
        text::occurs_in(prompt::outcome_word(o), colored(o, true)),
        colored(o, false) == prompt::outcome_word(o),
        text::begins_with(colored(Outcome::Merged, true), "\x1b[32m"@),
        text::begins_with(colored(Outcome::Discarded, true), "\x1b[33m"@),
        text::begins_with(colored(Outcome::Denied, true), "\x1b[31m"@),
        text::begins_with(colored(Outcome::Invalid, true), "\x1b[31m"@),
        text::begins_with(colored(Outcome::Killed, true), "\x1b[31m"@),
        text::begins_with(colored(Outcome::Noop, true), "\x1b[2m"@),
{
    let w = prompt::outcome_word(o);
    text::lemma_occurs_between(s, "\x1b[1m"@, "\x1b[0m"@);
    text::lemma_occurs_between(s, "\x1b[2m"@, "\x1b[0m"@);
    text::lemma_occurs_between(w, "\x1b[32m"@, "\x1b[39m"@);
    text::lemma_occurs_between(w, "\x1b[33m"@, "\x1b[39m"@);
    text::lemma_occurs_between(w, "\x1b[31m"@, "\x1b[39m"@);
    text::lemma_occurs_between(w, "\x1b[2m"@, "\x1b[0m"@);
    lemma_color_starts("\x1b[32m"@, prompt::outcome_word(Outcome::Merged), "\x1b[39m"@);
    lemma_color_starts("\x1b[33m"@, prompt::outcome_word(Outcome::Discarded), "\x1b[39m"@);
    lemma_color_starts("\x1b[31m"@, prompt::outcome_word(Outcome::Denied), "\x1b[39m"@);
    lemma_color_starts("\x1b[31m"@, prompt::outcome_word(Outcome::Invalid), "\x1b[39m"@);
    lemma_color_starts("\x1b[31m"@, prompt::outcome_word(Outcome::Killed), "\x1b[39m"@);
    lemma_color_starts("\x1b[2m"@, prompt::outcome_word(Outcome::Noop), "\x1b[0m"@);
}

proof fn lemma_color_starts(a: Seq<char>, b: Seq<char>, c: Seq<char>)
    ensures
        text::begins_with(a + b + c, a),
{
    assert(a + b + c == a + (b + c));
    text::lemma_starts(a, b + c);
}

proof fn lemma_sections_in_order(records: Seq<IterationRecord>, styled: bool, j: int, k: int)
    requires
        0 <= j < k < records.len(),
    ensures
        text::in_order(
            section(records[j], styled),
            section(records[k], styled),
            sections(records, styled),
        ),
    decreases records.len(),
{
    let x = section(records[j], styled);
    let y = section(records[k], styled);
    let init = sections(records.drop_last(), styled);
    let last = section(records.last(), styled);
    if k == records.len() - 1 {
        lemma_sections_hold(records.drop_last(), styled, j);
        text::lemma_occurs_whole(y);
        assert(init + last == sections(records, styled));
    } else {
        lemma_sections_in_order(records.drop_last(), styled, j, k);
        text::lemma_in_order_wider(x, y, Seq::empty(), init, last);
        assert(Seq::<char>::empty() + init + last == sections(records, styled));
    }
}

/// Of two iterations, the one with the lesser number is listed first.
pub proof fn law_oldest_iteration_is_listed_first(
    name: Seq<char>,
    records: Seq<IterationRecord>,
    state: Option<StateSnapshot>,
    styled: bool,
    j: int,
    k: int,
)
    requires
        0 <= j < records.len(),
        0 <= k < records.len(),
        records[j].iter < records[k].iter,
    ensures
        text::in_order(
            section(records[j], styled),
            section(records[k], styled),
            list_text(name, records, state, styled),
        ),
{
    broadcast use vstd::seq_lib::group_to_multiset_ensures;

    let sorted = by_number(records);
    law_list_is_ordered(records);
    assert(records.contains(records[j]) && records.contains(records[k]));
    assert(records.to_multiset().count(records[j]) > 0);
    assert(records.to_multiset().count(records[k]) > 0);
    assert(sorted.contains(records[j]) && sorted.contains(records[k]));
    let a = choose|a: int| 0 <= a < sorted.len() && sorted[a] == records[j];
    let b = choose|b: int| 0 <= b < sorted.len() && sorted[b] == records[k];
    assert(a < b) by {
        if b < a {
            assert(sorted[b].iter <= sorted[a].iter);
        }
    }
    lemma_sections_in_order(sorted, styled, a, b);
    let x = section(records[j], styled);
    let y = section(records[k], styled);
    let s = sections(sorted, styled);
    let title = bolded("# Experiment: "@ + name, styled) + "\n"@;
    let head = title + dim(meta_text(records.len(), best_clause_text(state)), styled) + "\n"@;
    text::lemma_in_order_wider(x, y, head, s, Seq::empty());
    assert(head + s + Seq::<char>::empty() == list_text(name, records, state, styled));
}

} // verus!
