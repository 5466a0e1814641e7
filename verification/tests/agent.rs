use autorize::agent::{
    agent_invocation, agent_output, expand_env, expand_one, is_valid_name, substitute, AgentSpec,
};
use autorize::config::AgentStdin;
use autorize::env_map::EnvMap;
use autorize::subproc::CommandOutput;
use autorize::time::Duration;

fn env_of(entries: &[(&str, &str)]) -> EnvMap {
    let mut env = EnvMap::new();
    for (name, value) in entries {
        env.insert(name.to_string(), value.to_string());
    }
    env
}

#[test]
fn substitute_replaces_all_placeholders() {
    let p = "/tmp/p.md";
    let w = "/tmp/wd";
    let out = substitute(
        "agent --in {prompt_file} --wd {workdir} --iter {iter}",
        p,
        w,
        7,
    );
    assert_eq!(out, "agent --in /tmp/p.md --wd /tmp/wd --iter 7");
}

#[test]
fn expand_env_passthrough_simple() {
    let var = "AUTORIZE_TEST_EXP_PASS";
    let vars = env_of(&[(var, "bar")]);
    let mut env = EnvMap::new();
    env.insert("X".to_string(), format!("${var}"));
    let out = expand_env(&env, &vars);
    assert_eq!(out.get("X"), Some("bar"));
}

#[test]
fn expand_env_braced_form() {
    let var = "AUTORIZE_TEST_EXP_BRACED";
    let vars = env_of(&[(var, "baz")]);
    let mut env = EnvMap::new();
    env.insert("X".to_string(), format!("${{{var}}}"));
    let out = expand_env(&env, &vars);
    assert_eq!(out.get("X"), Some("baz"));
}

#[test]
fn expand_env_missing_var_to_empty() {
    let var = "AUTORIZE_TEST_EXP_MISSING_DEF_NOT_SET";
    let vars = EnvMap::new();
    let mut env = EnvMap::new();
    env.insert("X".to_string(), format!("${var}"));
    let out = expand_env(&env, &vars);
    assert_eq!(out.get("X"), Some(""));
}

#[test]
fn expand_env_preserves_literal_text() {
    let var = "AUTORIZE_TEST_EXP_LITERAL";
    let vars = env_of(&[(var, "bar")]);
    let mut env = EnvMap::new();
    env.insert("X".to_string(), format!("prefix-${var}-suffix"));
    let out = expand_env(&env, &vars);
    assert_eq!(out.get("X"), Some("prefix-bar-suffix"));
}

#[test]
fn expand_env_no_expansion_when_no_dollar() {
    let vars = EnvMap::new();
    let mut env = EnvMap::new();
    env.insert("X".to_string(), "literal".to_string());
    let out = expand_env(&env, &vars);
    assert_eq!(out.get("X"), Some("literal"));
}

#[test]
fn expand_env_preserves_dollar_followed_by_non_name() {
    let vars = EnvMap::new();
    let mut env = EnvMap::new();
    env.insert("X".to_string(), "price $5".to_string());
    let out = expand_env(&env, &vars);
    assert_eq!(out.get("X"), Some("price $5"));
}

#[test]
fn placeholders_are_replaced_in_turn() {
    assert_eq!(substitute("{iter}{iter}", "p", "w", 12), "1212");
    assert_eq!(substitute("{ iter } {x}", "p", "w", 1), "{ iter } {x}");
    assert_eq!(substitute("{prompt_file}", "{workdir}", "w", 1), "w");
}

#[test]
fn names_begin_with_a_letter_or_underscore() {
    for good in ["A", "_", "a1_B"] {
        assert!(is_valid_name(good), "{good:?}");
    }
    for wrong in ["", "1a", "a-b", "\u{e9}", "a b"] {
        assert!(!is_valid_name(wrong), "{wrong:?}");
    }
}

#[test]
fn variables_are_expanded_in_text() {
    let vars = env_of(&[("A", "1"), ("AB", "2"), ("S", "$A")]);
    assert_eq!(expand_one("$A$AB", &vars), "12");
    assert_eq!(expand_one("${A}B", &vars), "1B");
    assert_eq!(expand_one("$S", &vars), "$A");
    assert_eq!(expand_one("$", &vars), "$");
    assert_eq!(expand_one("$$A", &vars), "$1");
    assert_eq!(expand_one("${A", &vars), "${A");
    assert_eq!(expand_one("${1}", &vars), "${1}");
    assert_eq!(expand_one("${}", &vars), "${}");
    assert_eq!(expand_one("no dollar \u{2014} here", &vars), "no dollar \u{2014} here");
}

#[test]
fn every_entry_is_expanded() {
    let vars = env_of(&[("HOME", "/h")]);
    let env = env_of(&[("B", "$HOME/b"), ("A", "a")]);
    let out = expand_env(&env, &vars);
    assert_eq!(out.len(), 2);
    assert_eq!(out.get("A"), Some("a"));
    assert_eq!(out.get("B"), Some("/h/b"));
    assert_eq!(out.get("HOME"), None);
}

fn spec<'a>(template: &'a str, env: &'a EnvMap, stdin: AgentStdin) -> AgentSpec<'a> {
    AgentSpec {
        command_template: template,
        prompt_file: "/e/prompt.md",
        workdir: "/e/wt",
        iter: 42,
        budget: Duration::from_secs(5),
        workdir_var: "AUTORIZE_WORKDIR",
        env,
        stdin,
    }
}

#[test]
fn agent_is_started_through_the_shell() {
    let env = env_of(&[("TOKEN", "$SECRET")]);
    let vars = env_of(&[("SECRET", "s")]);
    let run = agent_invocation(&spec("cat {prompt_file} {iter}", &env, AgentStdin::Nothing), &vars);
    assert_eq!(run.program, "bash");
    assert_eq!(run.args, vec!["-lc".to_string(), "cat /e/prompt.md 42".to_string()]);
    assert_eq!(run.workdir, "/e/wt");
    assert_eq!(run.budget, Duration::from_secs(5));
    assert_eq!(run.stdin_file, None);
    assert_eq!(run.env.get("TOKEN"), Some("s"));
    assert_eq!(run.env.get("AUTORIZE_WORKDIR"), Some("/e/wt"));
    assert_eq!(run.env.len(), 2);
}

#[test]
fn agent_reads_the_prompt_on_its_standard_input() {
    let env = EnvMap::new();
    let run = agent_invocation(&spec("cat", &env, AgentStdin::Prompt), &EnvMap::new());
    assert_eq!(run.stdin_file, Some("/e/prompt.md".to_string()));
}

#[test]
fn agent_output_tells_of_the_budget() {
    let out = agent_output(CommandOutput {
        exit_code: None,
        signal: Some(15),
        stdout: "o".to_string(),
        stderr: "e".to_string(),
        timed_out: true,
    });
    assert!(out.killed_by_budget);
    assert_eq!(out.exit_code, None);
    assert_eq!(out.stdout, "o");
    assert_eq!(out.stderr, "e");
}
