use autorize::error::Error;
use autorize::worktree::{
    deny_path_matches, run_git, run_git_trim, run_git_unit, CommitStep, Git, GitCall, GitReply,
};

fn git() -> Git {
    Git::new("/repo".to_string())
}

fn ok(stdout: &str) -> GitReply {
    GitReply {
        success: true,
        stdout: stdout.to_string(),
        stderr: String::new(),
    }
}

fn failed(stderr: &str) -> GitReply {
    GitReply {
        success: false,
        stdout: String::new(),
        stderr: stderr.to_string(),
    }
}

fn line(call: &GitCall) -> String {
    format!("{}$ git {}", call.cwd, call.args.join(" "))
}

#[test]
fn is_inside_repo_true_for_initted() {
    let g = git();
    assert_eq!(line(&g.is_inside_repo_call()), "/repo$ git rev-parse --is-inside-work-tree");
    assert!(g.is_inside_repo(&ok("true\n")));
}

#[test]
fn is_inside_repo_false_for_non_repo() {
    let g = git();
    assert!(!g.is_inside_repo(&failed("fatal: not a git repository")));
}

#[test]
fn is_clean_true_after_commit() {
    let g = git();
    assert_eq!(line(&g.is_clean_call()), "/repo$ git status --porcelain");
    assert!(g.is_clean(&ok("")).unwrap());
}

#[test]
fn is_clean_false_after_modify() {
    let g = git();
    assert!(!g.is_clean(&ok(" M README.md\n")).unwrap());
}

#[test]
fn own_files_are_no_dirt() {
    let g = git();
    let prefixes = vec![".autorize/".to_string()];
    assert!(g.is_clean_excluding(&prefixes, &ok("?? .autorize/\n M .autorize/x\n")).unwrap());
    assert!(!g.is_clean_excluding(&prefixes, &ok("?? .autorize/\n M src/x\n")).unwrap());
    assert!(!g.is_clean_excluding(&prefixes, &ok("?? .autorizer\n")).unwrap());
    assert!(g.is_clean_excluding(&prefixes, &failed("boom")).is_err());
}

#[test]
fn head_sha_matches_rev_parse() {
    let g = git();
    let full = "0123456789abcdef0123456789abcdef01234567";
    assert_eq!(line(&g.head_sha_call()), "/repo$ git rev-parse HEAD");
    let sha = g.head_sha(&ok(&format!("{full}\n"))).unwrap();
    assert_eq!(sha.len(), 40);
    assert!(sha.chars().all(|c| c.is_ascii_hexdigit()));
}

#[test]
fn resolve_ref_missing_returns_none() {
    let g = git();
    assert_eq!(
        line(&g.resolve_ref_call("no-such-branch")),
        "/repo$ git rev-parse --verify no-such-branch^{}"
    );
    assert!(g.resolve_ref(&failed("fatal: Needed a single revision")).is_none());
}

#[test]
fn resolve_ref_present_returns_sha() {
    let g = git();
    let got = g.resolve_ref(&ok("abc123\n")).unwrap();
    assert_eq!(got, g.head_sha(&ok("abc123\n")).unwrap());
}

#[test]
fn create_branch_and_branch_exists() {
    let g = git();
    assert!(!g.branch_exists(&failed("")));
    let call = g.create_branch_at_call("autorize/test", "abc");
    assert_eq!(line(&call), "/repo$ git branch autorize/test abc");
    g.create_branch_at("autorize/test", "abc", &ok("")).unwrap();
    assert!(g.branch_exists(&ok("abc\n")));
    let err = g
        .create_branch_at("autorize/test", "abc", &failed("fatal: exists\n"))
        .unwrap_err();
    assert_eq!(err.message(), "git: git branch autorize/test abc failed: fatal: exists");
}

#[test]
fn worktree_add_and_list_and_remove() {
    let g = git();
    let wt = "/tmp/wt";
    assert_eq!(
        line(&g.worktree_add_call(wt, "autorize/test")),
        "/repo$ git worktree add /tmp/wt autorize/test"
    );
    g.worktree_add(wt, "autorize/test", &ok("")).unwrap();
    assert_eq!(line(&g.worktree_list_call()), "/repo$ git worktree list --porcelain");
    let list = g
        .worktree_list(&ok("worktree /repo\nHEAD aaa\nbranch refs/heads/main\n\nworktree /tmp/wt\nHEAD bbb\nbranch refs/heads/autorize/test\n\nworktree /tmp/d\nHEAD ccc\ndetached\n\n"))
        .unwrap();
    assert_eq!(list.len(), 3);
    assert!(
        list.iter()
            .any(|e| e.path == wt && e.branch.as_deref() == Some("autorize/test")),
        "wt missing from list: {list:?}"
    );
    assert_eq!(list[1].head, "bbb");
    assert_eq!(list[2].branch, None);
    assert_eq!(
        line(&g.worktree_remove_call(wt)),
        "/repo$ git worktree remove --force /tmp/wt"
    );
    g.worktree_remove(wt, &ok("")).unwrap();
    let list = g
        .worktree_list(&ok("worktree /repo\nHEAD aaa\nbranch refs/heads/main\n"))
        .unwrap();
    assert!(
        !list.iter().any(|e| e.path == wt),
        "wt still in list: {list:?}"
    );
    assert!(g.worktree_list(&failed("no")).is_err());
    assert!(g.worktree_remove(wt, &failed("no")).is_err());
    assert!(g.worktree_add(wt, "autorize/test", &failed("no")).is_err());
}

#[test]
fn commit_all_in_advances_tracking_branch() {
    let g = git();
    let mut replies: Vec<GitReply> = vec![];
    let mut asked: Vec<String> = vec![];
    let head = loop {
        match g.commit_all_in("/wt", "iter 1", &replies) {
            CommitStep::Call(call) => {
                let last = call.args.join(" ") == "rev-parse HEAD";
                asked.push(line(&call));
                replies.push(ok(if last { "def456\n" } else { "" }));
            }
            CommitStep::Done(r) => break r.unwrap(),
        }
    };
    assert_eq!(head, "def456");
    assert_eq!(
        asked,
        vec![
            "/wt$ git add -A".to_string(),
            "/wt$ git -c user.email=autorize@local -c user.name=autorize commit -m iter 1".to_string(),
            "/wt$ git rev-parse HEAD".to_string(),
        ]
    );
}

#[test]
fn commits_stop_at_the_first_failure() {
    let g = git();
    match g.commit_all_in("/wt", "m", &vec![ok(""), failed("nothing to commit")]) {
        CommitStep::Done(Err(Error::Git(m))) => assert!(m.contains("nothing to commit"), "{m}"),
        other => panic!("expected a failure, got {other:?}"),
    }
}

#[test]
fn diff_paths_against_returns_changed_files() {
    let g = git();
    assert_eq!(
        line(&g.diff_paths_against_call("/wt", "autorize/test")),
        "/wt$ git diff --name-only autorize/test"
    );
    let paths = g
        .diff_paths_against("/wt", "autorize/test", &ok("README.md\n"))
        .unwrap();
    assert_eq!(paths, vec!["README.md".to_string()]);
    let paths = g
        .diff_paths_against("/wt", "autorize/test", &ok("a\n\nb c\n"))
        .unwrap();
    assert_eq!(paths, vec!["a".to_string(), "b c".to_string()]);
}

#[test]
fn diff_against_returns_diff_text() {
    let g = git();
    assert_eq!(
        line(&g.diff_against_call("/wt", "autorize/test")),
        "/wt$ git diff autorize/test"
    );
    let diff = g
        .diff_against("/wt", "autorize/test", &ok("+++ b/README.md\n+changed\n"))
        .unwrap();
    assert!(diff.contains("+++"), "diff lacks +++ line: {diff}");
    assert!(diff.contains("changed"), "diff lacks new content: {diff}");
}

#[test]
fn deny_path_matches_basic() {
    let paths = vec!["foo.lock".to_string(), "src/main.rs".to_string()];
    let patterns = vec!["*.lock".to_string()];
    let got = deny_path_matches(&paths, &patterns).unwrap();
    assert_eq!(got, vec!["foo.lock".to_string()]);
}

#[test]
fn deny_path_matches_globstar() {
    let paths = vec![
        ".autorize/state.json".to_string(),
        "src/main.rs".to_string(),
    ];
    let patterns = vec![".autorize/**".to_string()];
    let got = deny_path_matches(&paths, &patterns).unwrap();
    assert_eq!(got, vec![".autorize/state.json".to_string()]);
}

#[test]
fn deny_path_matches_empty_returns_empty() {
    let paths = vec!["a".to_string(), "b".to_string()];
    let patterns: Vec<String> = vec![];
    let got = deny_path_matches(&paths, &patterns).unwrap();
    assert!(got.is_empty());
}

#[test]
fn denied_paths_keep_their_order() {
    let paths = vec!["b.x".to_string(), "c".to_string(), "a.y".to_string()];
    let patterns = vec!["*.y".to_string(), "*.x".to_string()];
    let got = deny_path_matches(&paths, &patterns).unwrap();
    assert_eq!(got, vec!["b.x".to_string(), "a.y".to_string()]);
}

#[test]
fn bad_globs_are_refused() {
    let paths = vec!["a".to_string()];
    let err = deny_path_matches(&paths, &vec!["[".to_string()]).unwrap_err();
    assert!(matches!(err, Error::Glob(_)), "{err:?}");
    assert!(err.message().starts_with("glob: "), "{}", err.message());
}

#[test]
fn remaining_commands() {
    let g = git();
    assert_eq!(
        line(&g.worktree_add_detached_call("/wt", "b")),
        "/repo$ git worktree add --detach /wt b"
    );
    assert_eq!(
        line(&g.update_branch_ref_call("b", "sha")),
        "/repo$ git update-ref refs/heads/b sha"
    );
    assert_eq!(line(&g.worktree_prune_call()), "/repo$ git worktree prune");
    assert_eq!(line(&g.stage_all_in_call("/wt")), "/wt$ git add -A");
    assert_eq!(line(&g.unstage_all_in_call("/wt")), "/wt$ git reset");
    assert_eq!(line(&g.detach_worktree_call("/wt")), "/wt$ git checkout --detach");
    assert_eq!(
        line(&g.log_subject_call("b")),
        "/repo$ git log -1 --format=%s b"
    );
    assert_eq!(
        line(&g.branch_exists_call("b")),
        "/repo$ git show-ref --verify --quiet refs/heads/b"
    );
}

#[test]
fn replies_are_read_off_bytes() {
    let r = GitReply::read(true, &vec![b'a', 0xff, b'b'], &b"err".to_vec());
    assert!(r.success);
    assert_eq!(r.stdout, "a\u{fffd}b");
    assert_eq!(r.stderr, "err");
}

#[test]
fn outputs_are_taken_whole_or_trimmed() {
    let call = git().head_sha_call();
    assert_eq!(run_git(&call, &ok(" x \n")).unwrap(), " x \n");
    assert_eq!(run_git_trim(&call, &ok(" x \n")).unwrap(), "x");
    run_git_unit(&call, &ok("")).unwrap();
    for err in [
        run_git(&call, &failed("bad\n")).unwrap_err(),
        run_git_trim(&call, &failed("bad\n")).unwrap_err(),
        run_git_unit(&call, &failed("bad\n")).unwrap_err(),
    ] {
        assert_eq!(err.message(), "git: git rev-parse HEAD failed: bad");
    }
}
