//! The files a new experiment starts from.
use vstd::prelude::*;

use crate::text;

verus! {

/// What stands for the experiment's name in a template.
pub const PLACEHOLDER: &'static str = "{{experiment_name}}";

/// The configuration of a new experiment.
pub const CONFIG_TMPL: &'static str =
    r#"[experiment]
name = "{{experiment_name}}"
description = ""

[objective]
# Prints the score to stdout; runs inside the iteration's worktree.
command = "bash score.sh"
# "min" or "max".
direction = "min"
# { kind = "float" }, { kind = "regex", pattern = "score=([0-9.]+)" } or
# { kind = "jq", path = ".metrics.loss" }.
parse = { kind = "float" }
timeout = "60s"
# "invalid", "worst" or "abort".
fail_mode = "invalid"

[boundaries]
# Told to the agent, not enforced.
allow_paths = []
# Enforced: touching one of these discards the iteration.
deny_paths = [".autorize/**"]

[setup]
command = ""
timeout = "5m"

[teardown]
command = ""
timeout = "1m"

[iteration]
# Hard wall-clock limit of one agent invocation.
budget = "5m"
# 0 means unbounded.
max_iterations = 0
keep_worktrees = false
max_consecutive_noops = 5

[schedule]
# Exactly one of total_budget and deadline.
total_budget = "4h"
# deadline = "tomorrow 9am"

[agent]
# {prompt_file}, {workdir} and {iter} are replaced.
command = "agent --print {prompt_file}"
workdir_var = "AUTORIZE_WORKDIR"
# "none" or "prompt".
stdin = "none"

[agent.env]
ANTHROPIC_API_KEY = "$ANTHROPIC_API_KEY"

[summarize]
# A separate, cheaper model that describes each iteration in 1-2 sentences.
enabled = true
command = "agent --model haiku --print {prompt_file}"
timeout = "60s"
stdin = "none"
"#;

/// The agent instructions of a new experiment.
pub const PROGRAM_TMPL: &'static str =
    r#"# {{experiment_name}}

Describe the goal of this experiment here. This file is put at the top of every
prompt, as it stands.

## Goal

What should get better, and how the score measures it.

## Constraints

- What the agent must leave alone.
- What a good change looks like.
"#;

/// A template with the experiment's name filled in.
pub open spec fn filled(template: Seq<char>, name: Seq<char>) -> Seq<char> {
    text::replaced(template, PLACEHOLDER@, name)
}

fn fill(template: &str, name: &str) -> (r: String)
    ensures
        r@ == filled(template@, name@),
{
    proof {
        reveal_strlit("{{experiment_name}}");
    }
    text::replace(template, PLACEHOLDER, name)
}

/// The configuration text of a new experiment.
pub fn render_config(experiment_name: &str) -> (r: String)
    ensures
        r@ == filled(CONFIG_TMPL@, experiment_name@),
{
    fill(CONFIG_TMPL, experiment_name)
}

/// The instructions text of a new experiment.
pub fn render_program(experiment_name: &str) -> (r: String)
    ensures
        r@ == filled(PROGRAM_TMPL@, experiment_name@),
{
    fill(PROGRAM_TMPL, experiment_name)
}

/// A template gets the experiment's name where its placeholder stands, and is
/// otherwise as it was.
pub proof fn law_name_is_filled_in(a: Seq<char>, b: Seq<char>, name: Seq<char>)
    requires
        !a.contains('{'),
        !b.contains('{'),
    ensures
        filled(a + "{{experiment_name}}"@ + b, name) == a + name + b,
        filled(a, name) == a,
{
    reveal_strlit("{{experiment_name}}");
    let p = PLACEHOLDER@;
    let s = a + p + b;
    assert forall|k: int| 0 <= k < a.len() implies !text::begins_with(#[trigger] s.skip(k), p) by {
        assert(s.skip(k)[0] == a[k]);
        if text::begins_with(s.skip(k), p) {
            assert(s.skip(k).take(p.len() as int)[0] == '{');
        }
    }
    text::law_replace_first(a, p, b, name);
    lemma_unbraced(b, p, name);
    lemma_unbraced(a, p, name);
}

proof fn lemma_unbraced(s: Seq<char>, p: Seq<char>, name: Seq<char>)
    requires
        !s.contains('{'),
        p.len() > 0 && p[0] == '{',
    ensures
        text::replaced(s, p, name) == s,
{
    assert forall|k: int| 0 <= k <= s.len() implies !text::begins_with(#[trigger] s.skip(k), p) by {
        if text::begins_with(s.skip(k), p) {
            assert(s.skip(k).take(p.len() as int)[0] == '{');
            assert(s[k] == '{');
        }
    }
    text::law_replace_absent(s, p, name);
}

} // verus!
