//! From the objective command's output to a score, and from a missing score to
//! what becomes of the attempt.
use vstd::prelude::*;

use crate::config::{Direction, FailMode, Objective, ParseSpec};
use crate::error::Error;
use crate::score::{Score, GREATEST, LEAST};
use crate::subproc::CommandOutput;
use crate::text;

verus! {

/// Why there is no score.
#[derive(Debug, Clone)]
pub enum ScoreFailure {
    Spawn(String),
    Exit(i32),
    Signal,
    Timeout,
    Parse(String),
}

/// [`ScoreFailure`] with its texts as sequences.
pub enum Fault {
    Spawn(Seq<char>),
    Exit(i32),
    Signal,
    Timeout,
    Parse(Seq<char>),
}

impl View for ScoreFailure {
    type V = Fault;

    open spec fn view(&self) -> Fault {
        match *self {
            ScoreFailure::Spawn(m) => Fault::Spawn(m@),
            ScoreFailure::Exit(c) => Fault::Exit(c),
            ScoreFailure::Signal => Fault::Signal,
            ScoreFailure::Timeout => Fault::Timeout,
            ScoreFailure::Parse(m) => Fault::Parse(m@),
        }
    }
}

/// A reading with its failure taken by its view.
pub open spec fn seen(r: Result<Score, ScoreFailure>) -> Result<Score, Fault> {
    match r {
        Ok(s) => Ok(s),
        Err(f) => Err(f@),
    }
}

/// What scoring an attempt gave.
#[derive(Debug)]
pub struct ScoreOutput {
    pub score: Option<Score>,
    pub failure: Option<ScoreFailure>,
    pub stdout: String,
    pub stderr: String,
    pub timed_out: bool,
    pub exit_code: Option<i32>,
}

/// What becomes of an attempt.
#[derive(Debug, Clone)]
pub enum ScoreDecision {
    Use(Score),
    Discard,
    Abort(String),
}

/// The short reason shown for a failure.
pub open spec fn failure_text(f: Fault) -> Seq<char> {
    match f {
        Fault::Spawn(m) => "spawn: "@ + m,
        Fault::Exit(c) => "exit code "@ + text::dec_int(c as int),
        Fault::Signal => "killed by signal"@,
        Fault::Timeout => "timed out"@,
        Fault::Parse(m) => "parse: "@ + m,
    }
}

/// The short reason for a failure, the same in an abort and in the notes of an
/// invalid iteration.
pub fn describe_failure(f: &ScoreFailure) -> (r: String)
    ensures
        r@ == failure_text(f@),
{
    match f {
        ScoreFailure::Spawn(m) => {
            let mut out = text::owned("spawn: ");
            out.push_str(m.as_str());
            out
        },
        ScoreFailure::Exit(c) => {
            let mut out = text::owned("exit code ");
            out.push_str(text::dec_int_string(*c as i64).as_str());
            out
        },
        ScoreFailure::Signal => text::owned("killed by signal"),
        ScoreFailure::Timeout => text::owned("timed out"),
        ScoreFailure::Parse(m) => {
            let mut out = text::owned("parse: ");
            out.push_str(m.as_str());
            out
        },
    }
}

/// Why a text is no number.
pub open spec fn float_fault(s: Seq<char>) -> Seq<char> {
    if s.len() == 0 {
        "cannot parse float from empty string"@
    } else {
        "invalid float literal"@
    }
}

fn float_fault_text(s: &str) -> (r: &'static str)
    ensures
        r@ == float_fault(s@),
{
    if text::chars_of(s).len() == 0 {
        "cannot parse float from empty string"
    } else {
        "invalid float literal"
    }
}

/// How a number that is not finite is shown.
pub open spec fn nonfinite_text(s: Score) -> Seq<char> {
    if s.nan() {
        "NaN"@
    } else if s.negative() {
        "-inf"@
    } else {
        "inf"@
    }
}

/// A number counts as a score only if it is finite.
pub open spec fn finite_reading(s: Score) -> Result<Score, Fault> {
    if s.finite() {
        Ok(s)
    } else {
        Err(Fault::Parse("non-finite score: "@ + nonfinite_text(s)))
    }
}

/// Takes a number as a score if it is finite.
pub fn finite_or_parse_err(v: Score) -> (r: Result<Score, ScoreFailure>)
    ensures
        seen(r) == finite_reading(v),
{
    if v.is_finite() {
        return Ok(v);
    }
    let mut m = text::owned("non-finite score: ");
    if v.is_nan() {
        m.push_str("NaN");
    } else if v.is_negative() {
        m.push_str("-inf");
    } else {
        m.push_str("inf");
    }
    Err(ScoreFailure::Parse(m))
}

/// The score that a text is, white space around it aside.
pub open spec fn float_reading(s: Seq<char>) -> Result<Score, Fault> {
    match crate::score::score_of(text::trimmed(s)) {
        Some(v) => finite_reading(v),
        None => Err(Fault::Parse("not a float: "@ + float_fault(text::trimmed(s)))),
    }
}

/// Reads a text as a score.
pub fn parse_float(s: &str) -> (r: Result<Score, ScoreFailure>)
    ensures
        seen(r) == float_reading(s@),
{
    let t = text::trim(s);
    match Score::parse(t.as_str()) {
        Some(v) => finite_or_parse_err(v),
        None => {
            let mut m = text::owned("not a float: ");
            m.push_str(float_fault_text(t.as_str()));
            Err(ScoreFailure::Parse(m))
        },
    }
}

/// What the first match of a regular expression in a text captures: an error
/// for a pattern that is no regular expression, nothing where it does not
/// match, and else its first group, which may be missing.
pub uninterp spec fn regex_capture(pattern: Seq<char>, s: Seq<char>) -> Result<
    Option<Option<Seq<char>>>,
    Seq<char>,
>;

/// A capture with its texts as sequences.
pub open spec fn capture_view(c: Result<Option<Option<String>>, String>) -> Result<
    Option<Option<Seq<char>>>,
    Seq<char>,
> {
    match c {
        Err(e) => Err(e@),
        Ok(None) => Ok(None),
        Ok(Some(None)) => Ok(Some(None)),
        Ok(Some(Some(t))) => Ok(Some(Some(t@))),
    }
}

/// Compiles `pattern` with `regex::Regex::new`, takes `Regex::captures` of the
/// text and of these group 1. The result is a function of pattern and text
/// alone.
#[verifier::external_body]
fn capture(pattern: &str, s: &str) -> (r: Result<Option<Option<String>>, String>)
    ensures
        capture_view(r) == regex_capture(pattern@, s@),
{
    let re = regex::Regex::new(pattern).map_err(|e| e.to_string())?;
    Ok(re.captures(s).map(|c| c.get(1).map(|m| m.as_str().to_string())))
}

/// The score that a capture of `pattern` is.
pub open spec fn capture_reading(
    pattern: Seq<char>,
    captured: Result<Option<Option<Seq<char>>>, Seq<char>>,
) -> Result<Score, Fault> {
    match captured {
        Err(e) => Err(Fault::Parse("bad regex: "@ + e)),
        Ok(None) => Err(Fault::Parse("regex "@ + text::quoted(pattern) + " matched nothing"@)),
        Ok(Some(None)) => Err(
            Fault::Parse("regex "@ + text::quoted(pattern) + " has no capture group"@),
        ),
        Ok(Some(Some(t))) => match crate::score::score_of(text::trimmed(t)) {
            Some(v) => finite_reading(v),
            None => Err(
                Fault::Parse(
                    "capture "@ + text::quoted(t) + " not a float: "@ + float_fault(
                        text::trimmed(t),
                    ),
                ),
            ),
        },
    }
}

/// Reads what a regular expression captured as a score.
pub fn score_of_capture(pattern: &str, captured: Result<Option<Option<String>>, String>) -> (r:
    Result<Score, ScoreFailure>)
    ensures
        seen(r) == capture_reading(pattern@, capture_view(captured)),
{
    match captured {
        Err(e) => {
            let mut m = text::owned("bad regex: ");
            m.push_str(e.as_str());
            Err(ScoreFailure::Parse(m))
        },
        Ok(None) => {
            let mut m = text::owned("regex ");
            m.push_str(text::quote(pattern).as_str());
            m.push_str(" matched nothing");
            Err(ScoreFailure::Parse(m))
        },
        Ok(Some(None)) => {
            let mut m = text::owned("regex ");
            m.push_str(text::quote(pattern).as_str());
            m.push_str(" has no capture group");
            Err(ScoreFailure::Parse(m))
        },
        Ok(Some(Some(t))) => {
            let body = text::trim(t.as_str());
            match Score::parse(body.as_str()) {
                Some(v) => finite_or_parse_err(v),
                None => {
                    let mut m = text::owned("capture ");
                    m.push_str(text::quote(t.as_str()).as_str());
                    m.push_str(" not a float: ");
                    m.push_str(float_fault_text(body.as_str()));
                    Err(ScoreFailure::Parse(m))
                },
            }
        },
    }
}

/// Reads the first group of a regular expression's first match as a score.
pub fn parse_regex(s: &str, pattern: &str) -> (r: Result<Score, ScoreFailure>)
    ensures
        seen(r) == capture_reading(pattern@, regex_capture(pattern@, s@)),
{
    score_of_capture(pattern, capture(pattern, s))
}

/// The values that a JSON path selects in a JSON text, each as the bits of a
/// double where it is a number: the outer error tells why the text is no JSON,
/// the inner one why the path is no JSON path.
pub uninterp spec fn json_selection(s: Seq<char>, path: Seq<char>) -> Result<
    Result<Seq<Option<u64>>, Seq<char>>,
    Seq<char>,
>;

/// A selection with its texts as sequences.
pub open spec fn selection_view(c: Result<Result<Vec<Option<u64>>, String>, String>) -> Result<
    Result<Seq<Option<u64>>, Seq<char>>,
    Seq<char>,
> {
    match c {
        Err(e) => Err(e@),
        Ok(Err(e)) => Ok(Err(e@)),
        Ok(Ok(v)) => Ok(Ok(v@)),
    }
}

/// Reads the text with `serde_json::from_str`, the path with
/// `serde_json_path::JsonPath::parse`, takes `JsonPath::query` of the value and
/// of each node found its number as a double. The result is a function of text
/// and path alone.
#[verifier::external_body]
fn select(s: &str, path: &str) -> (r: Result<Result<Vec<Option<u64>>, String>, String>)
    ensures
        selection_view(r) == json_selection(s@, path@),
{
    let value: serde_json::Value = serde_json::from_str(s).map_err(|e| e.to_string())?;
    Ok(match serde_json_path::JsonPath::parse(path) {
        Ok(p) => Ok(
            p.query(&value).all().into_iter().map(|n| n.as_f64().map(|x| x.to_bits())).collect(),
        ),
        Err(e) => Err(e.to_string()),
    })
}

/// A path in jq's manner, `.foo.bar`, as a JSON path; any other path as it is.
pub open spec fn json_path(path: Seq<char>) -> Seq<char> {
    if path.len() > 0 && path[0] == '.' {
        "$."@ + path.drop_first()
    } else {
        path
    }
}

/// The JSON path for a path that may be in jq's manner.
pub fn rewrite_path(path: &str) -> (r: String)
    ensures
        r@ == json_path(path@),
{
    let v = text::chars_of(path);
    if v.len() > 0 && v[0] == '.' {
        let mut out = text::owned("$.");
        text::push_chars(&mut out, &v, 1, v.len());
        assert(v@.subrange(1, v@.len() as int) == v@.drop_first());
        out
    } else {
        text::owned(path)
    }
}

/// The score that a selection by `path` is.
pub open spec fn selection_reading(
    path: Seq<char>,
    selected: Result<Result<Seq<Option<u64>>, Seq<char>>, Seq<char>>,
) -> Result<Score, Fault> {
    match selected {
        Err(e) => Err(Fault::Parse("invalid json: "@ + e)),
        Ok(Err(e)) => Err(Fault::Parse("bad jq path: "@ + e)),
        Ok(Ok(v)) => if v.len() != 1 {
            Err(
                Fault::Parse(
                    "jq path "@ + text::quoted(path) + " matched "@ + text::dec(v.len())
                        + " values, expected 1"@,
                ),
            )
        } else {
            match v[0] {
                Some(bits) => finite_reading(Score { bits }),
                None => Err(
                    Fault::Parse("jq path "@ + text::quoted(path) + " value is not a number"@),
                ),
            }
        },
    }
}

/// Reads what a JSON path selected as a score.
pub fn score_of_selection(
    path: &str,
    selected: Result<Result<Vec<Option<u64>>, String>, String>,
) -> (r: Result<Score, ScoreFailure>)
    ensures
        seen(r) == selection_reading(path@, selection_view(selected)),
{
    match selected {
        Err(e) => {
            let mut m = text::owned("invalid json: ");
            m.push_str(e.as_str());
            Err(ScoreFailure::Parse(m))
        },
        Ok(Err(e)) => {
            let mut m = text::owned("bad jq path: ");
            m.push_str(e.as_str());
            Err(ScoreFailure::Parse(m))
        },
        Ok(Ok(v)) => {
            if v.len() != 1 {
                let mut m = text::owned("jq path ");
                m.push_str(text::quote(path).as_str());
                m.push_str(" matched ");
                m.push_str(text::dec_string(v.len() as u64).as_str());
                m.push_str(" values, expected 1");
                return Err(ScoreFailure::Parse(m));
            }
            match v[0] {
                Some(bits) => finite_or_parse_err(Score { bits }),
                None => {
                    let mut m = text::owned("jq path ");
                    m.push_str(text::quote(path).as_str());
                    m.push_str(" value is not a number");
                    Err(ScoreFailure::Parse(m))
                },
            }
        },
    }
}

/// Reads the one number that a path selects in a JSON text as a score.
pub fn parse_jq(s: &str, path: &str) -> (r: Result<Score, ScoreFailure>)
    ensures
        seen(r) == selection_reading(path@, json_selection(s@, json_path(path@))),
{
    let rewritten = rewrite_path(path);
    score_of_selection(path, select(s, rewritten.as_str()))
}

/// The score that an objective command's output is.
pub open spec fn reading(stdout: Seq<char>, spec: ParseSpec) -> Result<Score, Fault> {
    match spec {
        ParseSpec::Float => float_reading(stdout),
        ParseSpec::Regex { pattern } => capture_reading(
            pattern@,
            regex_capture(pattern@, stdout),
        ),
        ParseSpec::Jq { path } => selection_reading(
            path@,
            json_selection(stdout, json_path(path@)),
        ),
    }
}

/// Reads the score off an objective command's output.
pub fn parse_score(stdout: &str, spec: &ParseSpec) -> (r: Result<Score, ScoreFailure>)
    ensures
        seen(r) == reading(stdout@, *spec),
        r matches Ok(s) ==> s.finite(),
{
    match spec {
        ParseSpec::Float => parse_float(stdout),
        ParseSpec::Regex { pattern } => parse_regex(stdout, pattern.as_str()),
        ParseSpec::Jq { path } => parse_jq(stdout, path.as_str()),
    }
}

/// The score of an attempt whose objective command has ended.
pub open spec fn verdict(out: CommandOutput, spec: ParseSpec) -> Result<Score, Fault> {
    if out.timed_out {
        Err(Fault::Timeout)
    } else {
        match out.exit_code {
            None => Err(Fault::Signal),
            Some(code) => if code != 0 {
                Err(Fault::Exit(code))
            } else {
                reading(out.stdout@, spec)
            },
        }
    }
}

/// What scoring an attempt comes to, given what became of the objective
/// command.
pub open spec fn is_scored(
    run: Result<CommandOutput, Error>,
    parse: ParseSpec,
    r: Result<ScoreOutput, Error>,
) -> bool {
    match run {
        Ok(out) => {
            &&& r matches Ok(so)
            &&& so.stdout == out.stdout
            &&& so.stderr == out.stderr
            &&& so.timed_out == out.timed_out
            &&& so.exit_code == out.exit_code
            &&& match verdict(out, parse) {
                Ok(s) => so.score == Some(s) && so.failure is None && s.finite(),
                Err(f) => so.score is None && (so.failure matches Some(g) && g@ == f),
            }
        },
        Err(Error::Subproc(m)) => {
            &&& r matches Ok(so)
            &&& so.score is None
            &&& so.failure matches Some(g) && g@ == Fault::Spawn(m@)
            &&& so.stdout@.len() == 0
            &&& so.stderr@.len() == 0
            &&& !so.timed_out
            &&& so.exit_code is None
        },
        Err(e) => r == Err::<ScoreOutput, Error>(e),
    }
}

/// Scores an attempt: `run` is what became of the objective command. A command
/// that could not be started is a failure to score; any other error is handed
/// on.
pub fn score(run: Result<CommandOutput, Error>, obj: &Objective) -> (r: Result<ScoreOutput, Error>)
    ensures
        is_scored(run, obj.parse, r),
{
    let out = match run {
        Ok(out) => out,
        Err(Error::Subproc(m)) => {
            return Ok(
                ScoreOutput {
                    score: None,
                    failure: Some(ScoreFailure::Spawn(m)),
                    stdout: String::new(),
                    stderr: String::new(),
                    timed_out: false,
                    exit_code: None,
                },
            );
        },
        Err(e) => {
            return Err(e);
        },
    };
    let (score, failure) = if out.timed_out {
        (None, Some(ScoreFailure::Timeout))
    } else {
        match out.exit_code {
            None => (None, Some(ScoreFailure::Signal)),
            Some(code) => {
                if code != 0 {
                    (None, Some(ScoreFailure::Exit(code)))
                } else {
                    match parse_score(out.stdout.as_str(), &obj.parse) {
                        Ok(v) => (Some(v), None),
                        Err(e) => (None, Some(e)),
                    }
                }
            },
        }
    };
    Ok(
        ScoreOutput {
            score,
            failure,
            stdout: out.stdout,
            stderr: out.stderr,
            timed_out: out.timed_out,
            exit_code: out.exit_code,
        },
    )
}

/// The worst score there is: one that no finite score is beaten by.
pub open spec fn worst(direction: Direction) -> Score {
    match direction {
        Direction::Min => Score { bits: GREATEST },
        Direction::Max => Score { bits: LEAST },
    }
}

/// The reason of an abort.
pub open spec fn abort_text(failure: Option<ScoreFailure>) -> Seq<char> {
    match failure {
        Some(f) => failure_text(f@),
        None => "no score"@,
    }
}

/// Tells what becomes of an attempt. Without a score the fail mode decides: a
/// finite sentinel stands for the worst score, since only finite numbers
/// survive in a record.
pub fn apply_fail_mode(out: &ScoreOutput, obj: &Objective) -> (r: ScoreDecision)
    ensures
        match out.score {
            Some(s) => r == ScoreDecision::Use(s),
            None => match obj.fail_mode {
                FailMode::Invalid => r is Discard,
                FailMode::Worst => r == ScoreDecision::Use(worst(obj.direction)),
                FailMode::Abort => r matches ScoreDecision::Abort(m) && m@ == abort_text(
                    out.failure,
                ),
            },
        },
{
    if let Some(s) = out.score {
        return ScoreDecision::Use(s);
    }
    match obj.fail_mode {
        FailMode::Invalid => ScoreDecision::Discard,
        FailMode::Worst => match obj.direction {
            Direction::Min => ScoreDecision::Use(Score { bits: GREATEST }),
            Direction::Max => ScoreDecision::Use(Score { bits: LEAST }),
        },
        FailMode::Abort => {
            let reason = match &out.failure {
                Some(f) => describe_failure(f),
                None => text::owned("no score"),
            };
            ScoreDecision::Abort(reason)
        },
    }
}

/// Only a command that ended by itself, in time and with success, gives a score;
/// any other failure is told for what it is, whatever was printed.
pub proof fn law_only_clean_runs_score(out: CommandOutput, spec: ParseSpec)
    ensures
        verdict(out, spec) matches Ok(s) ==> !out.timed_out && out.exit_code == Some(0i32)
            && s.finite(),
        out.timed_out ==> verdict(out, spec) == Err::<Score, Fault>(Fault::Timeout),
        !out.timed_out && out.exit_code is None ==> verdict(out, spec) == Err::<Score, Fault>(
            Fault::Signal,
        ),
        !out.timed_out ==> (out.exit_code matches Some(c) ==> c != 0 ==> verdict(out, spec)
            == Err::<Score, Fault>(Fault::Exit(c))),
{
}

/// A finite number that is printed is the score, whatever white space is round
/// it. A number that is not finite is none, and so is a text that is no number.
pub proof fn law_printed_number_is_the_score(
    before: Seq<char>,
    s: Seq<char>,
    after: Seq<char>,
    out: CommandOutput,
)
    requires
        forall|k: int| 0 <= k < before.len() ==> text::is_white(#[trigger] before[k]),
        forall|k: int| 0 <= k < after.len() ==> text::is_white(#[trigger] after[k]),
        s.len() > 0 && !text::is_white(s[0]) && !text::is_white(s.last()),
        !out.timed_out && out.exit_code == Some(0i32),
        out.stdout@ == before + s + after,
    ensures
        verdict(out, ParseSpec::Float) is Ok <==> (crate::score::score_of(s) matches Some(v)
            && v.finite()),
        verdict(out, ParseSpec::Float) matches Ok(v) ==> crate::score::score_of(s) == Some(v),
        verdict(out, ParseSpec::Float) matches Err(f) ==> f is Parse,
{
    text::law_trim_ignores_white_around(before, s, after);
}

/// With a regular expression, the score is what its first group captures; with a
/// path, it is the one value that the path selects. Anything else is no score.
pub proof fn law_selected_number_is_the_score(
    pattern: Seq<char>,
    captured: Result<Option<Option<Seq<char>>>, Seq<char>>,
    selected: Result<Result<Seq<Option<u64>>, Seq<char>>, Seq<char>>,
)
    ensures
        capture_reading(pattern, captured) matches Ok(v) ==> (captured matches Ok(Some(Some(t)))
            && crate::score::score_of(text::trimmed(t)) == Some(v) && v.finite()),
        captured matches Ok(Some(Some(t))) ==> (crate::score::score_of(text::trimmed(t)) matches Some(
            v,
        ) ==> v.finite() ==> capture_reading(pattern, captured) == Ok::<Score, Fault>(v)),
        selection_reading(pattern, selected) matches Ok(v) ==> (selected matches Ok(Ok(l)) && l
            == seq![Some(v.bits)] && v.finite()),
        selected matches Ok(Ok(l)) ==> l.len() == 1 ==> (l[0] matches Some(b) ==> (Score {
            bits: b,
        }).finite() ==> selection_reading(pattern, selected) == Ok::<Score, Fault>(
            Score { bits: b },
        )),
{
    if let Ok(Ok(l)) = selected {
        if let Ok(v) = selection_reading(pattern, selected) {
            assert(l =~= seq![Some(v.bits)]);
        }
    }
}

/// A path that begins with a point is looked up from the root of the document;
/// one that is rooted already is taken as it is.
pub proof fn law_paths_are_rooted(rest: Seq<char>)
    ensures
        json_path(seq!['.'] + rest) == "$."@ + rest,
        json_path("$"@ + rest) == "$"@ + rest,
{
    reveal_strlit("$");
    assert((seq!['.'] + rest).drop_first() == rest);
}

/// What is printed reaches the reading that the configuration asks for.
pub proof fn law_output_is_read_as_asked(out: CommandOutput, pattern: String, path: String)
    requires
        !out.timed_out && out.exit_code == Some(0i32),
    ensures
        verdict(out, ParseSpec::Regex { pattern }) == capture_reading(
            pattern@,
            regex_capture(pattern@, out.stdout@),
        ),
        path@.len() > 0 && path@[0] == '.' ==> verdict(out, ParseSpec::Jq { path })
            == selection_reading(path@, json_selection(out.stdout@, "$."@ + path@.skip(1))),
{
    if path@.len() > 0 {
        assert(path@.skip(1) == path@.drop_first());
    }
}

/// A score that is missing comes with the reason, and one that is there without;
/// what the command left is kept.
pub proof fn law_score_or_reason(
    run: Result<CommandOutput, Error>,
    parse: ParseSpec,
    so: ScoreOutput,
)
    requires
        is_scored(run, parse, Ok(so)),
    ensures
        so.score is Some <==> so.failure is None,
        so.score is Some <==> (run matches Ok(out) && verdict(out, parse) is Ok),
        so.score matches Some(s) ==> (run matches Ok(out) && verdict(out, parse) == Ok::<
            Score,
            Fault,
        >(s)),
        run matches Ok(out) ==> so.stdout@ == out.stdout@ && so.stderr@ == out.stderr@
            && so.exit_code == out.exit_code && so.timed_out == out.timed_out,
        run is Err ==> (run matches Err(Error::Subproc(m)) && (so.failure matches Some(g) && g@
            == Fault::Spawn(m@))),
{
}

/// The worst score is beaten by every finite score that differs from it, and
/// beats none.
pub proof fn law_worst_is_beaten(s: Score, direction: Direction)
    requires
        s.finite(),
    ensures
        worst(direction).finite(),
        !worst(direction).better(s, direction),
        s.rank() != worst(direction).rank() ==> s.better(worst(direction), direction),
{
}

/// The reason of a failure tells what failed.
pub proof fn law_failures_are_told(m: Seq<char>, c: i32)
    ensures
        text::finishes_with(failure_text(Fault::Spawn(m)), m),
        text::finishes_with(failure_text(Fault::Parse(m)), m),
        text::begins_with(failure_text(Fault::Spawn(m)), "spawn: "@),
        text::begins_with(failure_text(Fault::Parse(m)), "parse: "@),
        failure_text(Fault::Exit(c)) == "exit code "@ + text::dec_int(c as int),
        failure_text(Fault::Signal) == "killed by signal"@,
        failure_text(Fault::Timeout) == "timed out"@,
{
    let a = failure_text(Fault::Spawn(m));
    let b = failure_text(Fault::Parse(m));
    assert(a.skip(a.len() - m.len()) == m);
    assert(b.skip(b.len() - m.len()) == m);
    text::lemma_starts("spawn: "@, m);
    text::lemma_starts("parse: "@, m);
}

} // verus!
