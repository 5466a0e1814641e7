//! Child processes under a time budget: what is started, when a child is
//! signalled, and how a fatal signal to the harness itself is answered.
use vstd::prelude::*;

use crate::env_map::EnvMap;
use crate::storage;
use crate::text;
use crate::time::Duration;

verus! {

/// How long a child that was told to stop may take, in nanoseconds.
pub const GRACE: u64 = 5_000_000_000;

/// The pause between two looks at a running child, in milliseconds.
pub const POLL: u64 = 20;

/// The pause between two looks at a child that was told to stop, in
/// milliseconds.
pub const GRACE_POLL: u64 = 100;

/// How long children may take to stop on a fatal signal to the harness, in
/// nanoseconds.
pub const SIGNAL_GRACE: u64 = 3_000_000_000;

/// What a finished child left.
#[derive(Debug)]
pub struct CommandOutput {
    pub exit_code: Option<i32>,
    pub signal: Option<i32>,
    pub stdout: String,
    pub stderr: String,
    pub timed_out: bool,
}

/// A child to be started, as the leader of a session of its own.
#[derive(Debug)]
pub struct Invocation {
    pub program: String,
    pub args: Vec<String>,
    pub workdir: String,
    pub budget: Duration,
    /// What is laid over the inherited environment.
    pub env: EnvMap,
    /// The file that the child reads on its standard input, if any.
    pub stdin_file: Option<String>,
}

/// [`Invocation`] with its texts as sequences.
#[verifier::ext_equal]
pub struct Launch {
    pub program: Seq<char>,
    pub args: Seq<Seq<char>>,
    pub workdir: Seq<char>,
    pub budget: Duration,
    pub env: Map<Seq<char>, Seq<char>>,
    pub stdin_file: Option<Seq<char>>,
}

impl View for Invocation {
    type V = Launch;

    open spec fn view(&self) -> Launch {
        Launch {
            program: self.program@,
            args: text::texts(self.args@),
            workdir: self.workdir@,
            budget: self.budget,
            env: self.env@,
            stdin_file: match self.stdin_file {
                Some(f) => Some(f@),
                None => None,
            },
        }
    }
}

/// The launch of a shell command.
pub open spec fn shell_launch(
    command: Seq<char>,
    workdir: Seq<char>,
    budget: Duration,
    env: Map<Seq<char>, Seq<char>>,
    stdin_file: Option<Seq<char>>,
) -> Launch {
    Launch { program: "bash"@, args: seq!["-lc"@, command], workdir, budget, env, stdin_file }
}

/// The child that runs a shell command.
pub fn shell_invocation(
    command: &str,
    workdir: &str,
    budget: Duration,
    env: EnvMap,
    stdin_file: Option<&str>,
) -> (r: Invocation)
    ensures
        r@ == shell_launch(
            command@,
            workdir@,
            budget,
            env@,
            match stdin_file {
                Some(f) => Some(f@),
                None => None,
            },
        ),
{
    let mut args: Vec<String> = Vec::new();
    args.push(text::owned("-lc"));
    args.push(text::owned(command));
    assert(text::texts(args@) =~= seq!["-lc"@, command@]);
    Invocation {
        program: text::owned("bash"),
        args,
        workdir: text::owned(workdir),
        budget,
        env,
        stdin_file: match stdin_file {
            Some(f) => Some(text::owned(f)),
            None => None,
        },
    }
}

/// How far the watch over a child has come.
#[derive(Debug, Clone, Copy, PartialEq, Eq, Structural)]
pub enum Phase {
    /// The child runs within its budget.
    Running,
    /// The child's process group was told to stop.
    Stopping,
    /// The child's process group was killed.
    Killed,
    /// The child is gone.
    Over,
}

/// What is to be done about a child.
#[derive(Debug, Clone, Copy, PartialEq, Eq, Structural)]
pub enum WatchAction {
    /// Sleep for so many milliseconds and look again.
    Sleep(u64),
    /// Send SIGTERM to the child's process group, start the clock anew and look
    /// again at once.
    Terminate,
    /// Send SIGKILL to the child's process group.
    Kill,
    /// Wait for the child, however long it takes.
    Wait,
    /// Take what the child left.
    Collect,
}

/// One look at a child.
pub struct Look {
    /// Whether the child itself had exited.
    pub exited: bool,
    /// Whether anything in its process group was alive.
    pub alive: bool,
    /// The nanoseconds since the phase began.
    pub elapsed: nat,
}

impl Look {
    /// The child and all that it started in its process group are gone.
    pub open spec fn deserted(self) -> bool {
        self.exited && !self.alive
    }
}

/// What follows a look in a phase. Within its budget the child alone counts;
/// once told to stop, its whole process group does.
pub open spec fn watched(phase: Phase, budget: nat, look: Look) -> (Phase, WatchAction) {
    match phase {
        Phase::Running => if look.exited {
            (Phase::Over, WatchAction::Collect)
        } else if look.elapsed >= budget {
            (Phase::Stopping, WatchAction::Terminate)
        } else {
            (Phase::Running, WatchAction::Sleep(POLL))
        },
        Phase::Stopping => if look.deserted() {
            (Phase::Over, WatchAction::Collect)
        } else if look.elapsed >= GRACE {
            (Phase::Killed, WatchAction::Kill)
        } else {
            (Phase::Stopping, WatchAction::Sleep(GRACE_POLL))
        },
        Phase::Killed => (Phase::Over, WatchAction::Wait),
        Phase::Over => (Phase::Over, WatchAction::Collect),
    }
}

/// The watch over one child.
#[derive(Debug, Clone, Copy, PartialEq, Eq, Structural)]
pub struct Watch {
    pub budget: Duration,
    pub phase: Phase,
    /// Whether the child outlived its budget.
    pub timed_out: bool,
}

impl Watch {
    /// The watch over a child that was just started.
    pub fn new(budget: Duration) -> (r: Watch)
        ensures
            r == (Watch { budget, phase: Phase::Running, timed_out: false }),
    {
        Watch { budget, phase: Phase::Running, timed_out: false }
    }

    /// Looks at the child and tells what is to be done. `exited` tells of the
    /// child itself, `alive` of anything in its process group. `elapsed` counts
    /// from the start of the child, and from the SIGTERM once that was sent.
    pub fn look(&mut self, exited: bool, alive: bool, elapsed: Duration) -> (r: WatchAction)
        ensures
            (final(self).phase, r) == watched(
                old(self).phase,
                old(self).budget.total(),
                Look { exited, alive, elapsed: elapsed.total() },
            ),
            final(self).budget == old(self).budget,
            final(self).timed_out == (old(self).timed_out || r == WatchAction::Terminate),
    {
        match self.phase {
            Phase::Running => {
                if exited {
                    self.phase = Phase::Over;
                    WatchAction::Collect
                } else if !elapsed.shorter(&self.budget) {
                    self.phase = Phase::Stopping;
                    self.timed_out = true;
                    WatchAction::Terminate
                } else {
                    WatchAction::Sleep(POLL)
                }
            },
            Phase::Stopping => {
                if exited && !alive {
                    self.phase = Phase::Over;
                    WatchAction::Collect
                } else if elapsed.as_nanos() >= GRACE as u128 {
                    self.phase = Phase::Killed;
                    WatchAction::Kill
                } else {
                    WatchAction::Sleep(GRACE_POLL)
                }
            },
            Phase::Killed => {
                self.phase = Phase::Over;
                WatchAction::Wait
            },
            Phase::Over => WatchAction::Collect,
        }
    }

    /// What the child left, told with whether it outlived its budget. What it
    /// printed is taken for text, and bytes that are none are replaced.
    pub fn output(
        &self,
        exit_code: Option<i32>,
        signal: Option<i32>,
        stdout: &Vec<u8>,
        stderr: &Vec<u8>,
    ) -> (r: CommandOutput)
        ensures
            r.exit_code == exit_code,
            r.signal == signal,
            r.stdout@ == storage::lossy(stdout@),
            r.stderr@ == storage::lossy(stderr@),
            vstd::utf8::valid_utf8(stdout@) ==> r.stdout@ == vstd::utf8::decode_utf8(stdout@),
            vstd::utf8::valid_utf8(stderr@) ==> r.stderr@ == vstd::utf8::decode_utf8(stderr@),
            r.timed_out == self.timed_out,
    {
        CommandOutput {
            exit_code,
            signal,
            stdout: storage::utf8_lossy(stdout),
            stderr: storage::utf8_lossy(stderr),
            timed_out: self.timed_out,
        }
    }
}

/// The phase a watch is in after a series of looks.
pub open spec fn phase_after(budget: nat, looks: Seq<Look>) -> Phase
    decreases looks.len(),
{
    if looks.len() == 0 {
        Phase::Running
    } else {
        watched(phase_after(budget, looks.drop_last()), budget, looks.last()).0
    }
}

/// What is done at look `i` of a series.
pub open spec fn action_at(budget: nat, looks: Seq<Look>, i: int) -> WatchAction {
    watched(phase_after(budget, looks.take(i)), budget, looks[i]).1
}

proof fn lemma_phase_history(budget: nat, looks: Seq<Look>, n: int)
    requires
        0 <= n <= looks.len(),
    ensures
        phase_after(budget, looks.take(n)) == Phase::Running ==> forall|i: int|
            0 <= i < n ==> #[trigger] action_at(budget, looks, i) is Sleep,
        phase_after(budget, looks.take(n)) == Phase::Stopping ==> exists|i: int|
            0 <= i < n && #[trigger] action_at(budget, looks, i) == WatchAction::Terminate,
        phase_after(budget, looks.take(n)) == Phase::Stopping ==> forall|i: int|
            0 <= i < n ==> #[trigger] action_at(budget, looks, i) != WatchAction::Kill,
    decreases n,
{
    if n > 0 {
        assert(looks.take(n).drop_last() == looks.take(n - 1));
        assert(looks.take(n).last() == looks[n - 1]);
        lemma_phase_history(budget, looks, n - 1);
        let before = phase_after(budget, looks.take(n - 1));
        let after = phase_after(budget, looks.take(n));
        assert((after, action_at(budget, looks, n - 1)) == watched(before, budget, looks[n - 1]));
        if after == Phase::Stopping && before == Phase::Running {
            assert(action_at(budget, looks, n - 1) == WatchAction::Terminate);
        }
    }
}

/// A child is terminated only once its budget is spent and it still runs, and
/// nothing but pauses came before.
pub proof fn law_terminated_only_over_budget(budget: nat, looks: Seq<Look>, i: int)
    requires
        0 <= i < looks.len(),
        action_at(budget, looks, i) == WatchAction::Terminate,
    ensures
        !looks[i].exited,
        looks[i].elapsed >= budget,
        forall|j: int| 0 <= j < i ==> #[trigger] action_at(budget, looks, j) is Sleep,
{
    lemma_phase_history(budget, looks, i);
}

/// A process group is killed only after it was terminated, once it has let the
/// whole grace period pass and something in it is still alive, and only once.
pub proof fn law_killed_only_after_grace(budget: nat, looks: Seq<Look>, i: int)
    requires
        0 <= i < looks.len(),
        action_at(budget, looks, i) == WatchAction::Kill,
    ensures
        !looks[i].deserted(),
        looks[i].elapsed >= GRACE,
        exists|j: int| 0 <= j < i && #[trigger] action_at(budget, looks, j) == WatchAction::Terminate,
        forall|j: int| 0 <= j < i ==> #[trigger] action_at(budget, looks, j) != WatchAction::Kill,
{
    lemma_phase_history(budget, looks, i);
}

/// Nothing outlives the grace period: once a process group was terminated, the
/// first look after the grace period that finds anything of it kills it.
pub proof fn law_grace_is_the_limit(budget: nat, looks: Seq<Look>, j: int, i: int)
    requires
        0 <= j < i < looks.len(),
        action_at(budget, looks, j) == WatchAction::Terminate,
        forall|k: int| j < k <= i ==> !(#[trigger] looks[k]).deserted(),
        forall|k: int| j < k < i ==> (#[trigger] looks[k]).elapsed < GRACE,
        looks[i].elapsed >= GRACE,
    ensures
        forall|k: int|
            j < k < i ==> #[trigger] action_at(budget, looks, k) == WatchAction::Sleep(GRACE_POLL),
        action_at(budget, looks, i) == WatchAction::Kill,
{
    lemma_stopping(budget, looks, j, i, i);
    assert forall|k: int| j < k < i implies #[trigger] action_at(budget, looks, k)
        == WatchAction::Sleep(GRACE_POLL) by {
        lemma_stopping(budget, looks, j, i, k);
        assert(looks[k].elapsed < GRACE && !looks[k].deserted());
    }
}

proof fn lemma_stopping(budget: nat, looks: Seq<Look>, j: int, i: int, n: int)
    requires
        0 <= j < n <= i < looks.len(),
        action_at(budget, looks, j) == WatchAction::Terminate,
        forall|k: int| j < k <= i ==> !(#[trigger] looks[k]).deserted(),
        forall|k: int| j < k < i ==> (#[trigger] looks[k]).elapsed < GRACE,
    ensures
        phase_after(budget, looks.take(n)) == Phase::Stopping,
    decreases n,
{
    assert(looks.take(n).drop_last() == looks.take(n - 1));
    assert(looks.take(n).last() == looks[n - 1]);
    if n > j + 1 {
        lemma_stopping(budget, looks, j, i, n - 1);
        assert(looks[n - 1].elapsed < GRACE && !looks[n - 1].deserted());
    }
}

/// The watch over a process group that was terminated ends only after the group
/// was found to be gone, or after it was killed.
pub proof fn law_terminated_group_ends(budget: nat, looks: Seq<Look>, j: int, i: int)
    requires
        0 <= j < i < looks.len(),
        action_at(budget, looks, j) == WatchAction::Terminate,
        action_at(budget, looks, i) == WatchAction::Collect || action_at(budget, looks, i)
            == WatchAction::Wait,
    ensures
        exists|k: int|
            j < k <= i && (looks[k].deserted() || #[trigger] action_at(budget, looks, k)
                == WatchAction::Kill),
{
    lemma_ending(budget, looks, j, i);
    if phase_after(budget, looks.take(i)) == Phase::Stopping {
        assert(action_at(budget, looks, i) == WatchAction::Collect);
        assert(looks[i].deserted());
    }
}

proof fn lemma_ending(budget: nat, looks: Seq<Look>, j: int, n: int)
    requires
        0 <= j < n < looks.len(),
        action_at(budget, looks, j) == WatchAction::Terminate,
    ensures
        phase_after(budget, looks.take(n)) == Phase::Stopping || exists|k: int|
            j < k < n && (looks[k].deserted() || #[trigger] action_at(budget, looks, k)
                == WatchAction::Kill),
    decreases n,
{
    assert(looks.take(n).drop_last() == looks.take(n - 1));
    assert(looks.take(n).last() == looks[n - 1]);
    if n > j + 1 {
        lemma_ending(budget, looks, j, n - 1);
        if phase_after(budget, looks.take(n - 1)) == Phase::Stopping {
            let last = action_at(budget, looks, n - 1);
            assert(last is Sleep || looks[n - 1].deserted() || last == WatchAction::Kill);
        }
    }
}

/// A child that exits while it is within its budget is never signalled.
pub proof fn law_prompt_child_is_left_alone(budget: nat, looks: Seq<Look>, i: int)
    requires
        0 <= i < looks.len(),
        looks[i].exited,
        forall|j: int| 0 <= j < i ==> (#[trigger] looks[j]).elapsed < budget && !looks[j].exited,
    ensures
        forall|j: int| 0 <= j < i ==> #[trigger] action_at(budget, looks, j) == WatchAction::Sleep(POLL),
        action_at(budget, looks, i) == WatchAction::Collect,
{
    lemma_prompt(budget, looks, i, i);
    assert forall|j: int| 0 <= j < i implies #[trigger] action_at(budget, looks, j)
        == WatchAction::Sleep(POLL) by {
        lemma_prompt(budget, looks, i, j);
        assert(looks[j].elapsed < budget);
    }
}

proof fn lemma_prompt(budget: nat, looks: Seq<Look>, i: int, n: int)
    requires
        0 <= n <= i < looks.len(),
        forall|j: int| 0 <= j < i ==> (#[trigger] looks[j]).elapsed < budget && !looks[j].exited,
    ensures
        phase_after(budget, looks.take(n)) == Phase::Running,
    decreases n,
{
    if n > 0 {
        lemma_prompt(budget, looks, i, n - 1);
        assert(looks.take(n).drop_last() == looks.take(n - 1));
        assert(looks.take(n).last() == looks[n - 1]);
    }
}

/// What is to be done about the children after a fatal signal, once each was
/// told to stop.
#[derive(Debug, Clone, Copy, PartialEq, Eq, Structural)]
pub enum TeardownAction {
    /// Sleep for so many milliseconds and look again.
    Sleep(u64),
    /// Kill the groups that are still alive, and exit.
    Finish,
}

/// Tells whether to keep waiting for children that were told to stop.
pub fn teardown_wait(any_alive: bool, elapsed: Duration) -> (r: TeardownAction)
    ensures
        r == if any_alive && elapsed.total() < SIGNAL_GRACE {
            TeardownAction::Sleep(GRACE_POLL)
        } else {
            TeardownAction::Finish
        },
{
    if elapsed.as_nanos() < SIGNAL_GRACE as u128 && any_alive {
        TeardownAction::Sleep(GRACE_POLL)
    } else {
        TeardownAction::Finish
    }
}

/// The exit status of a program that a signal ended.
pub fn signal_exit_status(sig: i32) -> (r: i32)
    requires
        sig <= i32::MAX - 128,
    ensures
        r == 128 + sig,
{
    128 + sig
}

/// A budget is a limit: the first look that finds the child still running with
/// its budget spent stops it. It is then given five seconds.
pub proof fn law_budget_is_enforced(budget: nat, looks: Seq<Look>, i: int)
    requires
        0 <= i < looks.len(),
        !looks[i].exited,
        looks[i].elapsed >= budget,
        forall|j: int| 0 <= j < i ==> (#[trigger] looks[j]).elapsed < budget && !looks[j].exited,
    ensures
        action_at(budget, looks, i) == WatchAction::Terminate,
        GRACE == 5 * 1_000_000_000,
{
    lemma_prompt(budget, looks, i, i);
}

/// A shell command is run by a login shell, with what was asked for.
pub proof fn law_shell_runs_the_command(
    command: Seq<char>,
    workdir: Seq<char>,
    budget: Duration,
    env: Map<Seq<char>, Seq<char>>,
    stdin_file: Option<Seq<char>>,
)
    ensures
        ({
            let l = shell_launch(command, workdir, budget, env, stdin_file);
            &&& l.program == "bash"@
            &&& l.args.len() == 2 && l.args[0] == "-lc"@ && l.args[1] == command
            &&& l.workdir == workdir && l.budget == budget && l.env == env
            &&& l.stdin_file == stdin_file
        }),
{
}

} // verus!
