use autorize::env_map::EnvMap;
use autorize::error::Error;
use autorize::experiment::{path_join, ExperimentPaths};
use autorize::text;
use autorize::time::{Duration, Timestamp};

#[test]
fn errors_have_their_messages() {
    let m = || "x".to_string();
    let told: Vec<String> = vec![
        Error::Config(m()),
        Error::Io(m()),
        Error::TomlDe(m()),
        Error::TomlSer(m()),
        Error::Json(m()),
        Error::Glob(m()),
        Error::Git(m()),
        Error::Schedule(m()),
        Error::Subproc(m()),
    ]
    .iter()
    .map(|e| e.message())
    .collect();
    assert_eq!(
        told,
        vec![
            "config error: x",
            "io: x",
            "toml deserialize: x",
            "toml serialize: x",
            "json: x",
            "glob: x",
            "git: x",
            "schedule: x",
            "subprocess: x",
        ]
    );
    assert_eq!(
        Error::InvalidName("a\"b\n".to_string()).message(),
        "invalid experiment name \"a\\\"b\\n\": must be [A-Za-z0-9_-]+"
    );
}

#[test]
fn experiments_have_their_files() {
    let p = ExperimentPaths::new("/repo".to_string(), "pi".to_string());
    assert_eq!(p.name(), "pi");
    assert_eq!(p.project_root(), "/repo");
    assert_eq!(p.root(), "/repo/.autorize/pi");
    assert_eq!(p.config_path(), "/repo/.autorize/pi/config.toml");
    assert_eq!(p.program_path(), "/repo/.autorize/pi/program.md");
    assert_eq!(p.iterations_log(), "/repo/.autorize/pi/iterations.jsonl");
    assert_eq!(p.guidance_path(), "/repo/.autorize/pi/guidance.jsonl");
    assert_eq!(p.state_path(), "/repo/.autorize/pi/state.json");
    assert_eq!(p.lock_path(), "/repo/.autorize/pi/run.lock");
    assert_eq!(p.iter_dir(1), "/repo/.autorize/pi/iter-0001");
    assert_eq!(p.iter_dir(12345), "/repo/.autorize/pi/iter-12345");
}

#[test]
fn iterations_have_directories_of_their_own() {
    let p = ExperimentPaths::new("/repo".to_string(), "pi".to_string());
    let mut seen: Vec<String> = (0..3000).map(|n| p.iter_dir(n * 7)).collect();
    seen.sort();
    seen.dedup();
    assert_eq!(seen.len(), 3000);
}

#[test]
fn paths_are_joined_with_one_slash() {
    assert_eq!(path_join("/a", "b"), "/a/b");
    assert_eq!(path_join("/a/", "b"), "/a/b");
    assert_eq!(path_join("", "b"), "b");
}

#[test]
fn environments_keep_the_last_value_of_a_name() {
    let mut env = EnvMap::new();
    env.insert("B".to_string(), "1".to_string());
    env.insert("A".to_string(), "2".to_string());
    env.insert("B".to_string(), "3".to_string());
    assert_eq!(env.len(), 2);
    let mut listed: Vec<(&str, &str)> = (0..2).map(|i| (env.name(i), env.value(i))).collect();
    listed.sort();
    assert_eq!(listed, vec![("A", "2"), ("B", "3")]);
    assert_eq!(env.get("B"), Some("3"));
    assert_eq!(env.get("C"), None);
    let copy = env.clone();
    assert_eq!(copy.get("A"), Some("2"));
    assert_eq!(copy.len(), 2);
}

#[test]
fn spans_and_instants() {
    let d = Duration::from_millis(1500);
    assert_eq!((d.secs, d.nanos), (1, 500_000_000));
    assert_eq!(d.as_nanos(), 1_500_000_000);
    assert!(Duration::from_secs(1).shorter(&d));
    assert!(!d.shorter(&d));
    assert!(Duration::from_secs(0).is_zero());
    let t = Timestamp::from_unix(10, 5);
    assert_eq!(t.later(&d), Timestamp::from_unix(11, 500_000_005));
    assert_eq!(Timestamp::until(t, t.later(&d)), d);
    assert!(Timestamp::until(t.later(&d), t).is_zero());
    assert_eq!(Timestamp::from_unix(-1, 999_999_999).nanos, -1);
}

#[test]
fn texts_are_trimmed_and_split() {
    assert_eq!(text::trim(" \t a b\u{3000}\n"), "a b");
    assert_eq!(text::trim_end(" a "), " a");
    assert!(text::is_blank(" \u{a0}\n"));
    for s in ["", "a", "a\n", "a\r\nb", "\n\n", "a\rb\n", "x\n\ny"] {
        let want: Vec<String> = s.lines().map(str::to_string).collect();
        assert_eq!(text::lines(s), want, "{s:?}");
        let want: Vec<String> = s.split('\n').map(str::to_string).collect();
        assert_eq!(text::split(s, '\n'), want, "{s:?}");
        let want: Vec<String> = s.split_whitespace().map(str::to_string).collect();
        assert_eq!(text::words(s), want, "{s:?}");
        assert_eq!(text::trim(s), s.trim());
    }
    assert_eq!(text::split_once("a:b:c", ':'), Some(("a".to_string(), "b:c".to_string())));
    assert_eq!(text::split_once("abc", ':'), None);
}

#[test]
fn texts_are_searched_and_replaced() {
    assert!(text::starts_with("abc", "ab") && !text::starts_with("ab", "abc"));
    assert_eq!(text::strip_prefix("abc", "a"), Some("bc".to_string()));
    assert_eq!(text::strip_prefix("abc", "b"), None);
    assert_eq!(text::strip_suffix("abc", "bc"), Some("a".to_string()));
    assert_eq!(text::strip_suffix("abc", "b"), None);
    assert!(text::contains("xabcx", "abc") && !text::contains("xabx", "abc"));
    for (s, p, by) in [("aaa", "aa", "b"), ("{x}{x}", "{x}", "{x}y"), ("abc", "z", "q")] {
        assert_eq!(text::replace(s, p, by), s.replace(p, by));
    }
    assert_eq!(text::join(&vec!["a".to_string(), "b".to_string()], ", "), "a, b");
    assert_eq!(text::join(&vec![], ", "), "");
    assert!(text::same("a", "a") && !text::same("a", "b"));
}

#[test]
fn numbers_are_written_and_read() {
    for n in [0, 7, 10, 4711, u64::MAX] {
        assert_eq!(text::dec_string(n), n.to_string());
        assert_eq!(text::parse_unsigned(&n.to_string(), u64::MAX), Some(n));
    }
    for n in [0, -1, 42, i64::MAX] {
        assert_eq!(text::dec_int_string(n), n.to_string());
    }
    assert_eq!(text::parse_unsigned("18446744073709551616", u64::MAX), None);
    assert_eq!(text::parse_unsigned("+5", 9), Some(5));
    assert_eq!(text::parse_unsigned("10", 9), None);
    for s in ["0", "-1", "+3", "2147483647", "2147483648", "-2147483648", "-2147483649", "", "-", "1a"] {
        assert_eq!(text::parse_i32(s), s.parse::<i32>().ok(), "{s:?}");
    }
    assert_eq!(text::align_right("7", 3, '0'), "007");
    assert_eq!(text::align_left("ab", 4), "ab  ");
    assert_eq!(text::align_left("abcde", 4), "abcde");
}
