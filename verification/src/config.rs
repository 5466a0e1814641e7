//! The configuration of an experiment.
use vstd::prelude::*;

use crate::env_map::EnvMap;
use crate::error::Error;
use crate::text;
use crate::time::Duration;

verus! {

/// The whole configuration.
#[derive(Debug, Clone)]
pub struct Config {
    pub experiment: Experiment,
    pub objective: Objective,
    pub boundaries: Boundaries,
    pub setup: Setup,
    pub teardown: Teardown,
    pub iteration: Iteration,
    pub schedule: Schedule,
    pub agent: Agent,
    pub summarize: Summarize,
}

/// What the experiment is called.
#[derive(Debug, Clone)]
pub struct Experiment {
    pub name: String,
    pub description: String,
}

/// How an attempt is scored.
#[derive(Debug, Clone)]
pub struct Objective {
    pub command: String,
    pub direction: Direction,
    pub parse: ParseSpec,
    pub timeout: Duration,
    pub fail_mode: FailMode,
}

/// Which scores are better.
#[derive(Debug, Clone, Copy, PartialEq, Eq, Structural)]
pub enum Direction {
    Min,
    Max,
}

impl Direction {
    /// The direction that a word names.
    pub open spec fn of(word: Seq<char>) -> Option<Direction> {
        if word == "min"@ {
            Some(Direction::Min)
        } else if word == "max"@ {
            Some(Direction::Max)
        } else {
            None
        }
    }

    /// Reads a direction as a configuration names it.
    pub fn named(word: &str) -> (r: Option<Direction>)
        ensures
            r == Direction::of(word@),
    {
        if text::same(word, "min") {
            Some(Direction::Min)
        } else if text::same(word, "max") {
            Some(Direction::Max)
        } else {
            None
        }
    }
}

/// What becomes of an attempt whose score cannot be had.
#[derive(Debug, Clone, Copy, PartialEq, Eq, Structural)]
pub enum FailMode {
    Invalid,
    Worst,
    Abort,
}

impl Default for FailMode {
    fn default() -> (r: FailMode)
        ensures
            r == FailMode::Invalid,
    {
        FailMode::Invalid
    }
}

impl FailMode {
    /// The fail mode that a word names.
    pub open spec fn of(word: Seq<char>) -> Option<FailMode> {
        if word == "invalid"@ {
            Some(FailMode::Invalid)
        } else if word == "worst"@ {
            Some(FailMode::Worst)
        } else if word == "abort"@ {
            Some(FailMode::Abort)
        } else {
            None
        }
    }

    /// Reads a fail mode as a configuration names it.
    pub fn named(word: &str) -> (r: Option<FailMode>)
        ensures
            r == FailMode::of(word@),
    {
        if text::same(word, "invalid") {
            Some(FailMode::Invalid)
        } else if text::same(word, "worst") {
            Some(FailMode::Worst)
        } else if text::same(word, "abort") {
            Some(FailMode::Abort)
        } else {
            None
        }
    }
}

/// How the score is read off the objective command's output.
#[derive(Debug, Clone, PartialEq, Eq)]
pub enum ParseSpec {
    Float,
    Regex { pattern: String },
    Jq { path: String },
}

/// The paths an attempt may and may not touch.
#[derive(Debug, Clone)]
pub struct Boundaries {
    pub allow_paths: Vec<String>,
    pub deny_paths: Vec<String>,
}

impl Default for Boundaries {
    fn default() -> (r: Boundaries)
        ensures
            r.allow_paths@.len() == 0,
            r.deny_paths@.len() == 0,
    {
        Boundaries { allow_paths: Vec::new(), deny_paths: Vec::new() }
    }
}

/// A command run before each attempt.
#[derive(Debug, Clone)]
pub struct Setup {
    pub command: String,
    pub timeout: Duration,
}

impl Default for Setup {
    fn default() -> (r: Setup)
        ensures
            r.command@.len() == 0,
            r.timeout == (Duration { secs: 300, nanos: 0 }),
    {
        Setup { command: String::new(), timeout: default_setup_timeout() }
    }
}

/// A command run after each attempt.
#[derive(Debug, Clone)]
pub struct Teardown {
    pub command: String,
    pub timeout: Duration,
}

impl Default for Teardown {
    fn default() -> (r: Teardown)
        ensures
            r.command@.len() == 0,
            r.timeout == (Duration { secs: 60, nanos: 0 }),
    {
        Teardown { command: String::new(), timeout: default_teardown_timeout() }
    }
}

/// The limits of the loop and of one attempt.
#[derive(Debug, Clone)]
pub struct Iteration {
    pub budget: Duration,
    /// Zero means no limit.
    pub max_iterations: u64,
    pub keep_worktrees: bool,
    /// The loop stops after this many attempts in a row that changed nothing.
    pub max_consecutive_noops: u32,
}

impl Default for Iteration {
    fn default() -> (r: Iteration)
        ensures
            r.budget == (Duration { secs: 300, nanos: 0 }),
            r.max_iterations == 0,
            !r.keep_worktrees,
            r.max_consecutive_noops == 5,
    {
        Iteration {
            budget: default_iter_budget(),
            max_iterations: 0,
            keep_worktrees: false,
            max_consecutive_noops: default_max_consecutive_noops(),
        }
    }
}

/// When the experiment ends: after a span, or at an instant.
#[derive(Debug, Clone)]
pub struct Schedule {
    pub total_budget: Option<Duration>,
    pub deadline: Option<String>,
}

impl Default for Schedule {
    fn default() -> (r: Schedule)
        ensures
            r.total_budget is None,
            r.deadline is None,
    {
        Schedule { total_budget: None, deadline: None }
    }
}

/// How the worker agent is started.
#[derive(Debug, Clone)]
pub struct Agent {
    pub command: String,
    pub workdir_var: String,
    pub env: EnvMap,
    pub stdin: AgentStdin,
}

/// What an agent gets on its standard input.
#[derive(Debug, Clone, Copy, PartialEq, Eq, Structural)]
pub enum AgentStdin {
    Nothing,
    Prompt,
}

impl Default for AgentStdin {
    fn default() -> (r: AgentStdin)
        ensures
            r == AgentStdin::Nothing,
    {
        AgentStdin::Nothing
    }
}

impl AgentStdin {
    /// The standard input that a word names.
    pub open spec fn of(word: Seq<char>) -> Option<AgentStdin> {
        if word == "none"@ {
            Some(AgentStdin::Nothing)
        } else if word == "prompt"@ {
            Some(AgentStdin::Prompt)
        } else {
            None
        }
    }

    /// Reads an agent's standard input as a configuration names it.
    pub fn named(word: &str) -> (r: Option<AgentStdin>)
        ensures
            r == AgentStdin::of(word@),
    {
        if text::same(word, "none") {
            Some(AgentStdin::Nothing)
        } else if text::same(word, "prompt") {
            Some(AgentStdin::Prompt)
        } else {
            None
        }
    }
}

/// The summarizing agent: a separate, typically cheaper model that describes
/// an attempt in a sentence or two. It has its own command and timeout, takes
/// the same placeholders as the worker agent, and its failure never changes
/// the outcome of the attempt.
#[derive(Debug, Clone)]
pub struct Summarize {
    pub enabled: bool,
    pub command: String,
    pub timeout: Duration,
    pub stdin: AgentStdin,
}

impl Default for Summarize {
    fn default() -> (r: Summarize)
        ensures
            !r.enabled,
            r.command@.len() == 0,
            r.timeout == (Duration { secs: 60, nanos: 0 }),
            r.stdin == AgentStdin::Nothing,
    {
        Summarize {
            enabled: false,
            command: String::new(),
            timeout: default_summarize_timeout(),
            stdin: AgentStdin::Nothing,
        }
    }
}

/// The objective command's time limit where none is given.
pub fn default_objective_timeout() -> (r: Duration)
    ensures
        r == (Duration { secs: 60, nanos: 0 }),
{
    Duration::from_secs(60)
}

/// The setup command's time limit where none is given.
pub fn default_setup_timeout() -> (r: Duration)
    ensures
        r == (Duration { secs: 300, nanos: 0 }),
{
    Duration::from_secs(5 * 60)
}

/// The teardown command's time limit where none is given.
pub fn default_teardown_timeout() -> (r: Duration)
    ensures
        r == (Duration { secs: 60, nanos: 0 }),
{
    Duration::from_secs(60)
}

/// The summarizing agent's time limit where none is given.
pub fn default_summarize_timeout() -> (r: Duration)
    ensures
        r == (Duration { secs: 60, nanos: 0 }),
{
    Duration::from_secs(60)
}

/// The worker agent's time limit where none is given.
pub fn default_iter_budget() -> (r: Duration)
    ensures
        r == (Duration { secs: 300, nanos: 0 }),
{
    Duration::from_secs(5 * 60)
}

/// How many attempts in a row may change nothing, where no limit is given.
pub fn default_max_consecutive_noops() -> (r: u32)
    ensures
        r == 5,
{
    5
}

/// The variable that tells an agent its working directory, where no other is
/// named.
pub fn default_workdir_var() -> (r: String)
    ensures
        r@ == "AUTORIZE_WORKDIR"@,
{
    text::owned("AUTORIZE_WORKDIR")
}

/// A character that an experiment's name may hold.
pub open spec fn is_name_char(c: char) -> bool {
    text::is_letter(c) || text::is_digit(c) || c == '_' || c == '-'
}

/// An experiment's name is made of letters, digits, `_` and `-`, at least one.
pub open spec fn valid_name(name: Seq<char>) -> bool {
    name.len() > 0 && forall|i: int| 0 <= i < name.len() ==> is_name_char(#[trigger] name[i])
}

/// Tells whether an experiment can have the name.
pub fn is_valid_name(name: &str) -> (r: bool)
    ensures
        r == valid_name(name@),
{
    let v = text::chars_of(name);
    let mut i: usize = 0;
    while i < v.len()
        invariant
            i <= v.len(),
            v@ == name@,
            forall|j: int| 0 <= j < i ==> is_name_char(#[trigger] name@[j]),
        decreases v.len() - i,
    {
        let c = v[i];
        if !(text::char_is_letter(c) || text::char_is_digit(c) || c == '_' || c == '-') {
            assert(!is_name_char(name@[i as int]));
            return false;
        }
        i += 1;
    }
    v.len() > 0
}

/// The placeholder that stands for the prompt file in an agent's command.
pub const PROMPT_FILE: &'static str = "{prompt_file}";

/// A command with nothing but white space in it.
pub open spec fn blank(command: Seq<char>) -> bool {
    text::trimmed(command).len() == 0
}

/// A command that never tells its agent where the prompt is.
pub open spec fn misses_prompt(command: Seq<char>, stdin: AgentStdin) -> bool {
    stdin == AgentStdin::Nothing && !text::occurs_in(PROMPT_FILE@, command)
}

/// The first thing wrong with a configuration.
pub open spec fn problem(c: Config) -> Option<Seq<char>> {
    if !valid_name(c.experiment.name@) {
        Some(
            "experiment.name "@ + text::quoted(c.experiment.name@)
                + " must match [A-Za-z0-9_-]+ and be non-empty"@,
        )
    } else if c.schedule.total_budget is Some && c.schedule.deadline is Some {
        Some("schedule: set exactly one of `total_budget` or `deadline`, not both"@)
    } else if c.schedule.total_budget is None && c.schedule.deadline is None {
        Some("schedule: one of `total_budget` or `deadline` is required"@)
    } else if c.iteration.budget.total() == 0 {
        Some("iteration.budget must be greater than zero"@)
    } else if blank(c.agent.command@) {
        Some("agent.command must be non-empty"@)
    } else if misses_prompt(c.agent.command@, c.agent.stdin) {
        Some("agent.command must contain `{prompt_file}` when agent.stdin is \"none\""@)
    } else if blank(c.objective.command@) {
        Some("objective.command must be non-empty"@)
    } else if c.objective.parse matches ParseSpec::Regex { pattern } && pattern@.len() == 0 {
        Some("objective.parse regex pattern must be non-empty"@)
    } else if c.objective.parse matches ParseSpec::Jq { path } && path@.len() == 0 {
        Some("objective.parse jq path must be non-empty"@)
    } else if c.summarize.enabled && blank(c.summarize.command@) {
        Some("summarize.command must be non-empty when summarize.enabled is true"@)
    } else if c.summarize.enabled && misses_prompt(c.summarize.command@, c.summarize.stdin) {
        Some("summarize.command must contain `{prompt_file}` when summarize.stdin is \"none\""@)
    } else {
        None
    }
}

fn refuse(m: &str) -> (r: Result<(), Error>)
    ensures
        r matches Err(Error::Config(t)) && t@ == m@,
{
    Err(Error::Config(text::owned(m)))
}

fn is_empty(s: &str) -> (r: bool)
    ensures
        r == (s@.len() == 0),
{
    text::chars_of(s).len() == 0
}

impl Config {
    /// Accepts a configuration that the harness can work with, and tells the
    /// first thing wrong with any other.
    pub fn validate(&self) -> (r: Result<(), Error>)
        ensures
            match r {
                Ok(_) => problem(*self) is None,
                Err(Error::Config(m)) => problem(*self) == Some(m@),
                Err(_) => false,
            },
    {
        if !is_valid_name(self.experiment.name.as_str()) {
            let mut m = text::owned("experiment.name ");
            m.push_str(text::quote(self.experiment.name.as_str()).as_str());
            m.push_str(" must match [A-Za-z0-9_-]+ and be non-empty");
            return Err(Error::Config(m));
        }
        match (self.schedule.total_budget.is_some(), self.schedule.deadline.is_some()) {
            (true, true) => {
                return refuse("schedule: set exactly one of `total_budget` or `deadline`, not both");
            },
            (false, false) => {
                return refuse("schedule: one of `total_budget` or `deadline` is required");
            },
            _ => {},
        }
        if self.iteration.budget.is_zero() {
            return refuse("iteration.budget must be greater than zero");
        }
        if text::is_blank(self.agent.command.as_str()) {
            return refuse("agent.command must be non-empty");
        }
        if self.agent.stdin == AgentStdin::Nothing && !text::contains(
            self.agent.command.as_str(),
            PROMPT_FILE,
        ) {
            return refuse(
                "agent.command must contain `{prompt_file}` when agent.stdin is \"none\"",
            );
        }
        if text::is_blank(self.objective.command.as_str()) {
            return refuse("objective.command must be non-empty");
        }
        if let ParseSpec::Regex { pattern } = &self.objective.parse {
            if is_empty(pattern.as_str()) {
                return refuse("objective.parse regex pattern must be non-empty");
            }
        }
        if let ParseSpec::Jq { path } = &self.objective.parse {
            if is_empty(path.as_str()) {
                return refuse("objective.parse jq path must be non-empty");
            }
        }
        if self.summarize.enabled {
            if text::is_blank(self.summarize.command.as_str()) {
                return refuse("summarize.command must be non-empty when summarize.enabled is true");
            }
            if self.summarize.stdin == AgentStdin::Nothing && !text::contains(
                self.summarize.command.as_str(),
                PROMPT_FILE,
            ) {
                return refuse(
                    "summarize.command must contain `{prompt_file}` when summarize.stdin is \"none\"",
                );
            }
        }
        Ok(())
    }
}

/// A configuration is in order exactly if each of its parts is: a name, just one
/// limit in time, a budget, commands that are there, a prompt that reaches each
/// agent, and something to read the score by.
pub proof fn law_sound_configuration(c: Config)
    ensures
        problem(c) is None <==> {
            &&& c.experiment.name@.len() > 0
            &&& forall|k: int|
                0 <= k < c.experiment.name@.len() ==> {
                    let x = #[trigger] c.experiment.name@[k];
                    ('a' <= x <= 'z') || ('A' <= x <= 'Z') || ('0' <= x <= '9') || x == '_' || x
                        == '-'
                }
            &&& c.schedule.total_budget is Some <==> c.schedule.deadline is None
            &&& c.iteration.budget.secs > 0 || c.iteration.budget.nanos > 0
            &&& text::trimmed(c.agent.command@).len() > 0
            &&& c.agent.stdin == AgentStdin::Prompt || text::occurs_in(
                "{prompt_file}"@,
                c.agent.command@,
            )
            &&& text::trimmed(c.objective.command@).len() > 0
            &&& c.objective.parse matches ParseSpec::Regex { pattern } ==> pattern@.len() > 0
            &&& c.objective.parse matches ParseSpec::Jq { path } ==> path@.len() > 0
            &&& c.summarize.enabled ==> text::trimmed(c.summarize.command@).len() > 0 && (
            c.summarize.stdin == AgentStdin::Prompt || text::occurs_in(
                "{prompt_file}"@,
                c.summarize.command@,
            ))
        },
{
    let name = c.experiment.name@;
    if valid_name(name) {
        assert forall|k: int| 0 <= k < name.len() implies {
            let x = #[trigger] name[k];
            ('a' <= x <= 'z') || ('A' <= x <= 'Z') || ('0' <= x <= '9') || x == '_' || x == '-'
        } by {
            assert(is_name_char(name[k]));
        }
    }
}

/// Each setting is named by its own word, and by no other.
pub proof fn law_settings_have_their_words(word: Seq<char>)
    ensures
        Direction::of(word) == Some(Direction::Min) <==> word == "min"@,
        Direction::of(word) == Some(Direction::Max) <==> word == "max"@,
        FailMode::of(word) == Some(FailMode::Invalid) <==> word == "invalid"@,
        FailMode::of(word) == Some(FailMode::Worst) <==> word == "worst"@,
        FailMode::of(word) == Some(FailMode::Abort) <==> word == "abort"@,
        AgentStdin::of(word) == Some(AgentStdin::Nothing) <==> word == "none"@,
        AgentStdin::of(word) == Some(AgentStdin::Prompt) <==> word == "prompt"@,
{
    reveal_strlit("min");
    reveal_strlit("max");
    reveal_strlit("invalid");
    reveal_strlit("worst");
    reveal_strlit("abort");
    reveal_strlit("none");
    reveal_strlit("prompt");
    assert("min"@[1] != "max"@[1]);
    assert("invalid"@[0] != "worst"@[0] && "invalid"@[0] != "abort"@[0] && "worst"@[0]
        != "abort"@[0]);
    assert("none"@[0] != "prompt"@[0]);
}

} // verus!
