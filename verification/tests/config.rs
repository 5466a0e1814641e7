use autorize::config::{
    default_iter_budget, default_max_consecutive_noops, default_objective_timeout,
    default_setup_timeout, default_summarize_timeout, default_teardown_timeout,
    default_workdir_var, is_valid_name, Agent, AgentStdin, Boundaries, Config, Direction,
    Experiment, FailMode, Iteration, Objective, ParseSpec, Schedule, Setup, Summarize, Teardown,
};
use autorize::env_map::EnvMap;
use autorize::error::Error;
use autorize::templates::{render_config, render_program};
use autorize::time::Duration;

fn bad(what: &str) -> Error {
    Error::TomlDe(what.to_string())
}

fn section(root: &toml::Value, name: &str) -> toml::Value {
    root.get(name)
        .cloned()
        .unwrap_or(toml::Value::Table(toml::Table::new()))
}

fn word(t: &toml::Value, key: &str) -> Option<String> {
    t.get(key).and_then(|v| v.as_str()).map(str::to_string)
}

fn owed(t: &toml::Value, key: &str) -> Result<String, Error> {
    word(t, key).ok_or(bad(key))
}

fn span(t: &toml::Value, key: &str) -> Result<Option<Duration>, Error> {
    match word(t, key) {
        None => Ok(None),
        Some(s) => {
            let d = humantime::parse_duration(&s).map_err(|e| bad(&e.to_string()))?;
            Ok(Some(Duration {
                secs: d.as_secs(),
                nanos: d.subsec_nanos(),
            }))
        }
    }
}

fn words(t: &toml::Value, key: &str) -> Vec<String> {
    match t.get(key).and_then(|v| v.as_array()) {
        None => vec![],
        Some(a) => a.iter().map(|v| v.as_str().unwrap().to_string()).collect(),
    }
}

fn stdin(t: &toml::Value) -> Result<AgentStdin, Error> {
    match word(t, "stdin") {
        None => Ok(AgentStdin::default()),
        Some(w) => AgentStdin::named(&w).ok_or(bad(&w)),
    }
}

/// A configuration put together from TOML by this file, with the library's words
/// and defaults, and checked by the library.
fn assembled(s: &str) -> Result<Config, Error> {
    let root: toml::Value = toml::from_str(s).map_err(|e| bad(&e.to_string()))?;
    let experiment = section(&root, "experiment");
    let objective = section(&root, "objective");
    let boundaries = section(&root, "boundaries");
    let setup = section(&root, "setup");
    let teardown = section(&root, "teardown");
    let iteration = section(&root, "iteration");
    let schedule = section(&root, "schedule");
    let agent = section(&root, "agent");
    let summarize = section(&root, "summarize");
    let parse = section(&objective, "parse");
    let mut env = EnvMap::new();
    if let Some(t) = agent.get("env").and_then(|v| v.as_table()) {
        for (k, v) in t {
            env.insert(k.clone(), v.as_str().unwrap().to_string());
        }
    }
    let number = |key: &str| iteration.get(key).and_then(|v| v.as_integer());
    let cfg = Config {
        experiment: Experiment {
            name: owed(&experiment, "name")?,
            description: word(&experiment, "description").unwrap_or_default(),
        },
        objective: Objective {
            command: owed(&objective, "command")?,
            direction: Direction::named(&owed(&objective, "direction")?).ok_or(bad("direction"))?,
            parse: match owed(&parse, "kind")?.as_str() {
                "float" => ParseSpec::Float,
                "regex" => ParseSpec::Regex {
                    pattern: owed(&parse, "pattern")?,
                },
                "jq" => ParseSpec::Jq {
                    path: owed(&parse, "path")?,
                },
                other => return Err(bad(other)),
            },
            timeout: span(&objective, "timeout")?.unwrap_or(default_objective_timeout()),
            fail_mode: match word(&objective, "fail_mode") {
                None => FailMode::default(),
                Some(w) => FailMode::named(&w).ok_or(bad(&w))?,
            },
        },
        boundaries: Boundaries {
            allow_paths: words(&boundaries, "allow_paths"),
            deny_paths: words(&boundaries, "deny_paths"),
        },
        setup: Setup {
            command: word(&setup, "command").unwrap_or_default(),
            timeout: span(&setup, "timeout")?.unwrap_or(default_setup_timeout()),
        },
        teardown: Teardown {
            command: word(&teardown, "command").unwrap_or_default(),
            timeout: span(&teardown, "timeout")?.unwrap_or(default_teardown_timeout()),
        },
        iteration: Iteration {
            budget: span(&iteration, "budget")?.unwrap_or(default_iter_budget()),
            max_iterations: number("max_iterations").unwrap_or(0) as u64,
            keep_worktrees: iteration
                .get("keep_worktrees")
                .and_then(|v| v.as_bool())
                .unwrap_or(false),
            max_consecutive_noops: number("max_consecutive_noops")
                .map(|n| n as u32)
                .unwrap_or(default_max_consecutive_noops()),
        },
        schedule: Schedule {
            total_budget: span(&schedule, "total_budget")?,
            deadline: word(&schedule, "deadline"),
        },
        agent: Agent {
            command: owed(&agent, "command")?,
            workdir_var: word(&agent, "workdir_var").unwrap_or(default_workdir_var()),
            env,
            stdin: stdin(&agent)?,
        },
        summarize: Summarize {
            enabled: summarize
                .get("enabled")
                .and_then(|v| v.as_bool())
                .unwrap_or(Summarize::default().enabled),
            command: word(&summarize, "command").unwrap_or_default(),
            timeout: span(&summarize, "timeout")?.unwrap_or(default_summarize_timeout()),
            stdin: stdin(&summarize)?,
        },
    };
    cfg.validate()?;
    Ok(cfg)
}

fn base_toml() -> String {
    r#"
[experiment]
name = "pi"

[objective]
command = "bash score.sh"
direction = "min"
parse = { kind = "float" }

[schedule]
total_budget = "4h"

[agent]
command = "agent --print {prompt_file}"
"#
    .to_string()
}

#[test]
fn accepts_full_default_template() {
    let s = render_config("foo");
    let cfg = assembled(&s).expect("default template should parse");
    assert_eq!(cfg.experiment.name, "foo");
    assert_eq!(cfg.objective.direction, Direction::Min);
    assert!(matches!(cfg.objective.parse, ParseSpec::Float));
    assert_eq!(cfg.objective.fail_mode, FailMode::Invalid);
    assert_eq!(cfg.iteration.max_consecutive_noops, 5);
    assert_eq!(cfg.iteration.budget, Duration::from_secs(300));
    assert!(cfg.schedule.total_budget.is_some());
    assert!(cfg.schedule.deadline.is_none());
}

#[test]
fn accepts_float_variant() {
    let cfg = assembled(&base_toml()).unwrap();
    assert!(matches!(cfg.objective.parse, ParseSpec::Float));
}

#[test]
fn accepts_regex_variant() {
    let s = base_toml().replace(
        "parse = { kind = \"float\" }",
        "parse = { kind = \"regex\", pattern = \"score=([0-9.]+)\" }",
    );
    let cfg = assembled(&s).unwrap();
    match cfg.objective.parse {
        ParseSpec::Regex { pattern } => assert_eq!(pattern, "score=([0-9.]+)"),
        _ => panic!("expected regex"),
    }
}

#[test]
fn accepts_jq_variant() {
    let s = base_toml().replace(
        "parse = { kind = \"float\" }",
        "parse = { kind = \"jq\", path = \".metrics.bpb\" }",
    );
    let cfg = assembled(&s).unwrap();
    match cfg.objective.parse {
        ParseSpec::Jq { path } => assert_eq!(path, ".metrics.bpb"),
        _ => panic!("expected jq"),
    }
}

#[test]
fn accepts_total_budget_schedule() {
    let cfg = assembled(&base_toml()).unwrap();
    assert_eq!(
        cfg.schedule.total_budget,
        Some(Duration::from_secs(4 * 3600))
    );
    assert!(cfg.schedule.deadline.is_none());
}

#[test]
fn accepts_deadline_schedule() {
    let s = base_toml().replace(
        "total_budget = \"4h\"",
        "deadline = \"2026-05-21T09:00:00-07:00\"",
    );
    let cfg = assembled(&s).unwrap();
    assert!(cfg.schedule.total_budget.is_none());
    assert_eq!(
        cfg.schedule.deadline.as_deref(),
        Some("2026-05-21T09:00:00-07:00")
    );
}

#[test]
fn rejects_both_schedule_fields_set() {
    let s = base_toml().replace(
        "total_budget = \"4h\"",
        "total_budget = \"4h\"\ndeadline = \"2026-05-21T09:00:00-07:00\"",
    );
    let err = assembled(&s).unwrap_err();
    assert!(err.message().contains("exactly one"), "got: {}", err.message());
}

#[test]
fn rejects_neither_schedule_field_set() {
    let s = base_toml().replace("total_budget = \"4h\"", "");
    let err = assembled(&s).unwrap_err();
    assert!(err.message().contains("required"), "got: {}", err.message());
}

#[test]
fn rejects_bad_direction() {
    let s = base_toml().replace("direction = \"min\"", "direction = \"minimize\"");
    assembled(&s).unwrap_err();
}

#[test]
fn rejects_bad_fail_mode() {
    let s = base_toml().replace(
        "parse = { kind = \"float\" }",
        "parse = { kind = \"float\" }\nfail_mode = \"explode\"",
    );
    assembled(&s).unwrap_err();
}

#[test]
fn rejects_empty_name() {
    let s = base_toml().replace("name = \"pi\"", "name = \"\"");
    let err = assembled(&s).unwrap_err();
    assert!(err.message().contains("name"));
}

#[test]
fn rejects_name_with_slash() {
    let s = base_toml().replace("name = \"pi\"", "name = \"../etc\"");
    let err = assembled(&s).unwrap_err();
    assert!(err.message().contains("name"));
}

#[test]
fn requires_prompt_file_placeholder_when_stdin_none() {
    let s = base_toml().replace(
        "command = \"agent --print {prompt_file}\"",
        "command = \"agent --print\"",
    );
    let err = assembled(&s).unwrap_err();
    assert!(err.message().contains("prompt_file"), "got: {}", err.message());
}

#[test]
fn accepts_stdin_prompt_without_placeholder() {
    let s = base_toml().replace(
        "command = \"agent --print {prompt_file}\"",
        "command = \"agent --print -\"\nstdin = \"prompt\"",
    );
    let cfg = assembled(&s).unwrap();
    assert_eq!(cfg.agent.stdin, AgentStdin::Prompt);
    assert!(!cfg.agent.command.contains("{prompt_file}"));
}

#[test]
fn accepts_5m_budget() {
    let cfg = assembled(&base_toml()).unwrap();
    assert_eq!(cfg.iteration.budget, Duration::from_secs(300));
}

#[test]
fn summarize_disabled_by_default_when_section_absent() {
    // base_toml has no [summarize] — it must default to disabled, which is
    // the back-compatible no-op behavior for pre-existing experiments.
    let cfg = assembled(&base_toml()).unwrap();
    assert!(!cfg.summarize.enabled);
    assert_eq!(cfg.summarize.timeout, Duration::from_secs(60));
    assert_eq!(cfg.summarize.stdin, AgentStdin::Nothing);
}

#[test]
fn accepts_summarize_section() {
    let s = format!(
        "{}\n[summarize]\nenabled = true\ncommand = \"agent --model haiku --print {{prompt_file}}\"\ntimeout = \"30s\"\nstdin = \"none\"\n",
        base_toml()
    );
    let cfg = assembled(&s).unwrap();
    assert!(cfg.summarize.enabled);
    assert_eq!(cfg.summarize.timeout, Duration::from_secs(30));
    assert_eq!(cfg.summarize.stdin, AgentStdin::Nothing);
    assert!(cfg.summarize.command.contains("haiku"));
}

#[test]
fn default_template_enables_summarize() {
    let cfg = assembled(&render_config("foo")).unwrap();
    assert!(cfg.summarize.enabled);
    assert!(cfg.summarize.command.contains("{prompt_file}"));
}

#[test]
fn rejects_enabled_summarize_without_command() {
    let s = format!("{}\n[summarize]\nenabled = true\n", base_toml());
    let err = assembled(&s).unwrap_err();
    assert!(err.message().contains("summarize.command"), "got: {}", err.message());
}

#[test]
fn rejects_summarize_stdin_none_without_placeholder() {
    let s = format!(
        "{}\n[summarize]\nenabled = true\ncommand = \"agent --print\"\nstdin = \"none\"\n",
        base_toml()
    );
    let err = assembled(&s).unwrap_err();
    assert!(err.message().contains("prompt_file"), "got: {}", err.message());
}

#[test]
fn accepts_summarize_stdin_prompt_without_placeholder() {
    let s = format!(
        "{}\n[summarize]\nenabled = true\ncommand = \"agent --print -\"\nstdin = \"prompt\"\n",
        base_toml()
    );
    let cfg = assembled(&s).unwrap();
    assert_eq!(cfg.summarize.stdin, AgentStdin::Prompt);
}

#[test]
fn renders_experiment_name() {
    let rendered = render_config("pi");
    assert!(rendered.contains("name = \"pi\""));
    assert!(!rendered.contains("{{experiment_name}}"));
}

#[test]
fn renders_program_experiment_name() {
    let rendered = render_program("pi");
    assert!(rendered.contains("# pi"));
    assert!(!rendered.contains("{{experiment_name}}"));
}

#[test]
fn template_is_valid_config() {
    let rendered = render_config("pi");
    let cfg = assembled(&rendered).expect("template parses");
    assert_eq!(cfg.experiment.name, "pi");
}

#[test]
fn names_are_letters_digits_dash_and_underscore() {
    for good in ["pi", "a-b_C9", "-", "_", "0"] {
        assert!(is_valid_name(good), "{good:?}");
    }
    for wrong in ["", "a b", "a/b", "..", "\u{e9}", "a.b"] {
        assert!(!is_valid_name(wrong), "{wrong:?}");
    }
}

#[test]
fn defaults_are_as_documented() {
    assert_eq!(default_objective_timeout(), Duration::from_secs(60));
    assert_eq!(default_setup_timeout(), Duration::from_secs(300));
    assert_eq!(default_teardown_timeout(), Duration::from_secs(60));
    assert_eq!(default_summarize_timeout(), Duration::from_secs(60));
    assert_eq!(default_iter_budget(), Duration::from_secs(300));
    assert_eq!(default_max_consecutive_noops(), 5);
    assert_eq!(default_workdir_var(), "AUTORIZE_WORKDIR");
}

#[test]
fn refusals_are_configuration_errors() {
    let s = base_toml().replace("name = \"pi\"", "name = \"\"");
    assert!(matches!(assembled(&s), Err(Error::Config(_))));
    let s = base_toml().replace("command = \"bash score.sh\"", "command = \"  \"");
    assert!(matches!(assembled(&s), Err(Error::Config(_))));
    let s = format!("{}\n[iteration]\nbudget = \"0s\"\n", base_toml());
    let err = assembled(&s).unwrap_err();
    assert_eq!(err.message(), "config error: iteration.budget must be greater than zero");
    let s = base_toml().replace("{ kind = \"float\" }", "{ kind = \"jq\", path = \"\" }");
    let err = assembled(&s).unwrap_err();
    assert_eq!(err.message(), "config error: objective.parse jq path must be non-empty");
    let s = base_toml().replace("{ kind = \"float\" }", "{ kind = \"regex\", pattern = \"\" }");
    let err = assembled(&s).unwrap_err();
    assert_eq!(err.message(), "config error: objective.parse regex pattern must be non-empty");
    let s = base_toml().replace("command = \"agent --print {prompt_file}\"", "command = \" \"");
    let err = assembled(&s).unwrap_err();
    assert_eq!(err.message(), "config error: agent.command must be non-empty");
}

#[test]
fn words_of_a_configuration_are_in_lower_case() {
    assert_eq!(Direction::named("min"), Some(Direction::Min));
    assert_eq!(Direction::named("max"), Some(Direction::Max));
    assert_eq!(Direction::named("Min"), None);
    assert_eq!(FailMode::named("invalid"), Some(FailMode::Invalid));
    assert_eq!(FailMode::named("worst"), Some(FailMode::Worst));
    assert_eq!(FailMode::named("abort"), Some(FailMode::Abort));
    assert_eq!(FailMode::named(""), None);
    assert_eq!(AgentStdin::named("none"), Some(AgentStdin::Nothing));
    assert_eq!(AgentStdin::named("prompt"), Some(AgentStdin::Prompt));
    assert_eq!(AgentStdin::named("nothing"), None);
}
