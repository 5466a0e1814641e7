use autorize::env_map::EnvMap;
use autorize::subproc::{
    shell_invocation, signal_exit_status, teardown_wait, CommandOutput, Invocation, Phase,
    TeardownAction, Watch, WatchAction, GRACE_POLL, POLL,
};
use autorize::time::Duration;

#[test]
fn children_within_budget_are_left_alone() {
    let mut w = Watch::new(Duration::from_secs(5));
    assert_eq!(w.look(false, true, Duration::from_millis(0)), WatchAction::Sleep(POLL));
    assert_eq!(w.look(false, true, Duration::from_millis(4999)), WatchAction::Sleep(POLL));
    assert_eq!(w.look(true, true, Duration::from_millis(5001)), WatchAction::Collect);
    assert!(!w.timed_out);
    assert_eq!(w.phase, Phase::Over);
    let out = w.output(Some(0), None, &b"hello\n".to_vec(), &vec![]);
    assert_eq!(out.exit_code, Some(0));
    assert_eq!(out.stdout, "hello\n");
    assert!(!out.timed_out);
}

#[test]
fn children_over_budget_are_terminated_then_killed() {
    let mut w = Watch::new(Duration::from_secs(1));
    assert_eq!(w.look(false, true, Duration::from_millis(1001)), WatchAction::Terminate);
    assert!(w.timed_out);
    assert_eq!(w.look(false, true, Duration::from_millis(2000)), WatchAction::Sleep(GRACE_POLL));
    assert_eq!(w.look(false, true, Duration::from_secs(30)), WatchAction::Kill);
    assert_eq!(w.look(false, true, Duration::from_secs(30)), WatchAction::Wait);
    let out = w.output(None, Some(9), &vec![], &vec![b'x', 0xff]);
    assert!(out.timed_out);
    assert_eq!(out.signal, Some(9));
    assert_eq!(out.stderr, "x\u{fffd}");
}

#[test]
fn groups_that_heed_the_signal_are_collected() {
    let mut w = Watch::new(Duration::from_secs(1));
    assert_eq!(w.look(false, true, Duration::from_secs(2)), WatchAction::Terminate);
    assert_eq!(w.look(true, false, Duration::from_secs(3)), WatchAction::Collect);
    assert!(w.timed_out);
}

#[test]
fn groups_that_outlive_their_leader_are_killed() {
    let mut w = Watch::new(Duration::from_secs(1));
    assert_eq!(w.look(false, true, Duration::from_secs(2)), WatchAction::Terminate);
    assert_eq!(w.look(true, true, Duration::from_secs(3)), WatchAction::Sleep(GRACE_POLL));
    assert_eq!(w.look(true, true, Duration::from_millis(4999)), WatchAction::Sleep(GRACE_POLL));
    assert_eq!(w.look(true, true, Duration::from_secs(5)), WatchAction::Kill);
    assert_eq!(w.look(true, true, Duration::from_secs(5)), WatchAction::Wait);
    assert_eq!(w.look(true, false, Duration::from_secs(5)), WatchAction::Collect);
    assert!(w.timed_out);
}

#[test]
fn commands_run_in_a_login_shell() {
    let mut env = EnvMap::new();
    env.insert("FOO".to_string(), "bar".to_string());
    let run = shell_invocation("echo $FOO", "/tmp", Duration::from_secs(5), env, Some("/in"));
    assert_eq!(run.program, "bash");
    assert_eq!(run.args, vec!["-lc".to_string(), "echo $FOO".to_string()]);
    assert_eq!(run.env.get("FOO"), Some("bar"));
    assert_eq!(run.stdin_file.as_deref(), Some("/in"));
}

#[test]
fn teardown_waits_for_children_up_to_its_grace() {
    assert_eq!(teardown_wait(false, Duration::from_secs(0)), TeardownAction::Finish);
    assert!(matches!(teardown_wait(true, Duration::from_secs(1)), TeardownAction::Sleep(_)));
    assert_eq!(teardown_wait(true, Duration::from_secs(3)), TeardownAction::Finish);
}

#[test]
fn signals_are_told_in_the_exit_status() {
    assert_eq!(signal_exit_status(2), 130);
    assert_eq!(signal_exit_status(15), 143);
}

/// Watches over a child that would run for `wants` milliseconds, on a clock that
/// only sleeping moves. Tells what it left and how long it took.
fn watch_child(inv: &Invocation, wants: u64, stdout: &str) -> (CommandOutput, u64) {
    let mut watch = Watch::new(inv.budget);
    let mut now: u64 = 0;
    let mut since: u64 = 0;
    let mut signal: Option<i32> = None;
    loop {
        let exited = now >= wants || signal.is_some();
        match watch.look(exited, !exited, Duration::from_millis(now - since)) {
            WatchAction::Sleep(ms) => now += ms,
            WatchAction::Terminate => {
                signal = Some(15);
                since = now;
            }
            WatchAction::Kill => signal = Some(9),
            WatchAction::Wait | WatchAction::Collect => break,
        }
    }
    let code = if signal.is_some() { None } else { Some(0) };
    (watch.output(code, signal, &stdout.as_bytes().to_vec(), &vec![]), now)
}

#[test]
fn outputs_within_budget_are_passed_on() {
    let inv = shell_invocation("echo hi", "/tmp", Duration::from_secs(5), EnvMap::new(), None);
    let (out, _) = watch_child(&inv, 3, "hi\n");
    assert_eq!(out.exit_code, Some(0));
    assert_eq!(out.stdout, "hi\n");
    assert!(!out.timed_out);
}

#[test]
fn times_out_long_sleep() {
    let inv = shell_invocation("sleep 30", "/tmp", Duration::from_secs(1), EnvMap::new(), None);
    let (out, elapsed) = watch_child(&inv, 30_000, "");
    assert!(out.timed_out, "expected timed_out: {out:?}");
    assert!(elapsed < 8_000, "took too long: {elapsed} ms");
    assert!(
        out.signal.is_some() || out.exit_code.is_some(),
        "no status: {out:?}"
    );
}

#[test]
fn large_outputs_are_passed_on_whole() {
    let w = Watch::new(Duration::from_secs(10));
    let large = "x\n".repeat(131_073);
    let out = w.output(Some(0), None, &large.clone().into_bytes(), &vec![]);
    assert_eq!(out.stdout, large);
}

#[test]
fn invocations_hold_the_extra_variables() {
    let mut env = EnvMap::new();
    env.insert("FOO".to_string(), "bar".to_string());
    let inv = shell_invocation("echo \"$FOO\"", "/tmp", Duration::from_secs(5), env, None);
    assert_eq!(inv.env.len(), 1);
    assert_eq!(inv.env.name(0), "FOO");
    assert_eq!(inv.env.value(0), "bar");
}
