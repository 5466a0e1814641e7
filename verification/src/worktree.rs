//! Git: the commands the harness gives, and what it reads off their replies.
use vstd::prelude::*;

use crate::error::Error;
use crate::storage;
use crate::text;

verus! {

/// A git command with its texts as sequences.
#[verifier::ext_equal]
pub struct Call {
    pub args: Seq<Seq<char>>,
    pub cwd: Seq<char>,
}

/// A git command: its arguments and the directory it runs in.
#[derive(Debug)]
pub struct GitCall {
    pub args: Vec<String>,
    pub cwd: String,
}

impl View for GitCall {
    type V = Call;

    open spec fn view(&self) -> Call {
        Call { args: text::texts(self.args@), cwd: self.cwd@ }
    }
}

impl GitCall {
    fn at(cwd: &str) -> (r: GitCall)
        ensures
            r@ == (Call { args: Seq::empty(), cwd: cwd@ }),
    {
        let args: Vec<String> = Vec::new();
        assert(text::texts(args@) =~= Seq::empty());
        GitCall { args, cwd: text::owned(cwd) }
    }

    fn arg(self, a: &str) -> (r: GitCall)
        ensures
            r@ == (Call { args: self@.args.push(a@), cwd: self@.cwd }),
    {
        let ghost before = self@.args;
        let mut args = self.args;
        args.push(text::owned(a));
        assert(text::texts(args@) =~= before.push(a@));
        GitCall { args, cwd: self.cwd }
    }
}

/// What a git command answered.
#[derive(Debug)]
pub struct GitReply {
    pub success: bool,
    pub stdout: String,
    pub stderr: String,
}

impl GitReply {
    /// The answer of a finished process.
    pub fn read(success: bool, stdout: &Vec<u8>, stderr: &Vec<u8>) -> (r: GitReply)
        ensures
            r.success == success,
            r.stdout@ == storage::lossy(stdout@),
            r.stderr@ == storage::lossy(stderr@),
    {
        GitReply {
            success,
            stdout: storage::utf8_lossy(stdout),
            stderr: storage::utf8_lossy(stderr),
        }
    }
}

/// The message for a git command that failed.
pub open spec fn failure_message(call: Call, stderr: Seq<char>) -> Seq<char> {
    "git "@ + text::joined(call.args, " "@) + " failed: "@ + text::trimmed(stderr)
}

/// Tells that `r` is the error for a failed command.
pub open spec fn is_failure<T>(r: Result<T, Error>, call: Call, reply: GitReply) -> bool {
    r matches Err(Error::Git(m)) && m@ == failure_message(call, reply.stderr@)
}

/// The output of a git command that succeeded, and an error for any other.
pub fn run_git(call: &GitCall, reply: &GitReply) -> (r: Result<String, Error>)
    ensures
        if reply.success {
            r matches Ok(s) && s@ == reply.stdout@
        } else {
            is_failure(r, call@, *reply)
        },
{
    if !reply.success {
        let mut m = text::owned("git ");
        m.push_str(text::join(&call.args, " ").as_str());
        m.push_str(" failed: ");
        m.push_str(text::trim(reply.stderr.as_str()).as_str());
        return Err(Error::Git(m));
    }
    Ok(text::owned(reply.stdout.as_str()))
}

/// The output of a git command without white space around it.
pub fn run_git_trim(call: &GitCall, reply: &GitReply) -> (r: Result<String, Error>)
    ensures
        if reply.success {
            r matches Ok(s) && s@ == text::trimmed(reply.stdout@)
        } else {
            is_failure(r, call@, *reply)
        },
{
    match run_git(call, reply) {
        Ok(s) => Ok(text::trim(s.as_str())),
        Err(e) => Err(e),
    }
}

/// That a git command succeeded, and an error where it did not.
pub fn run_git_unit(call: &GitCall, reply: &GitReply) -> (r: Result<(), Error>)
    ensures
        if reply.success {
            r is Ok
        } else {
            is_failure(r, call@, *reply)
        },
{
    match run_git(call, reply) {
        Ok(_) => Ok(()),
        Err(e) => Err(e),
    }
}

/// A worktree that git knows of.
#[derive(Debug, Clone)]
pub struct WorktreeEntry {
    pub path: String,
    pub head: String,
    pub branch: Option<String>,
}

/// [`WorktreeEntry`] with its texts as sequences.
#[verifier::ext_equal]
pub struct Entry {
    pub path: Seq<char>,
    pub head: Seq<char>,
    pub branch: Option<Seq<char>>,
}

impl View for WorktreeEntry {
    type V = Entry;

    open spec fn view(&self) -> Entry {
        Entry {
            path: self.path@,
            head: self.head@,
            branch: match self.branch {
                Some(b) => Some(b@),
                None => None,
            },
        }
    }
}

/// The views of a list of worktrees.
pub open spec fn entries_view(v: Seq<WorktreeEntry>) -> Seq<Entry> {
    Seq::new(v.len(), |i: int| v[i]@)
}

/// The view of a worktree that may be missing.
pub open spec fn entry_view(e: Option<WorktreeEntry>) -> Option<Entry> {
    match e {
        Some(e) => Some(e@),
        None => None,
    }
}

/// The word before the first space of a line.
pub open spec fn key_of(line: Seq<char>) -> Seq<char> {
    line.take(text::find_char(line, ' '))
}

/// What follows the first space of a line.
pub open spec fn value_of(line: Seq<char>) -> Seq<char> {
    let n = text::find_char(line, ' ');
    if n < line.len() {
        line.skip(n + 1)
    } else {
        Seq::empty()
    }
}

/// A branch's own name.
pub open spec fn short_branch(name: Seq<char>) -> Seq<char> {
    if text::begins_with(name, "refs/heads/"@) {
        name.skip("refs/heads/"@.len() as int)
    } else {
        name
    }
}

/// What a line of git's listing says of the worktree it belongs to.
pub open spec fn described(current: Option<Entry>, line: Seq<char>) -> Option<Entry> {
    if key_of(line) == "worktree"@ {
        Some(Entry { path: value_of(line), head: Seq::empty(), branch: None })
    } else {
        match current {
            None => None,
            Some(e) => if key_of(line) == "HEAD"@ {
                Some(Entry { head: value_of(line), ..e })
            } else if key_of(line) == "branch"@ {
                Some(Entry { branch: Some(short_branch(value_of(line))), ..e })
            } else if key_of(line) == "detached"@ {
                Some(Entry { branch: None, ..e })
            } else {
                Some(e)
            },
        }
    }
}

/// The worktrees that lines of git's listing complete, and the one they leave
/// open: an empty line completes a worktree.
pub open spec fn listing(lines: Seq<Seq<char>>) -> (Seq<Entry>, Option<Entry>)
    decreases lines.len(),
{
    if lines.len() == 0 {
        (Seq::empty(), None)
    } else {
        let (done, current) = listing(lines.drop_last());
        let line = lines.last();
        if line.len() == 0 {
            match current {
                Some(e) => (done.push(e), None),
                None => (done, None),
            }
        } else {
            (done, described(current, line))
        }
    }
}

/// The worktrees in git's listing; the end of the text completes the last one.
pub open spec fn worktrees_in(out: Seq<char>) -> Seq<Entry> {
    let (done, current) = listing(text::lines_of(out));
    match current {
        Some(e) => done.push(e),
        None => done,
    }
}

fn key_and_value(line: &str) -> (r: (String, String))
    ensures
        r.0@ == key_of(line@),
        r.1@ == value_of(line@),
{
    let v = text::chars_of(line);
    assert(v@.skip(0) == v@);
    let n = text::index_of(&v, 0, ' ');
    let key = text::slice_string(&v, 0, n);
    assert(v@.subrange(0, n as int) == v@.take(n as int));
    if n < v.len() {
        let value = text::slice_string(&v, n + 1, v.len());
        assert(v@.subrange(n as int + 1, v@.len() as int) == v@.skip(n as int + 1));
        (key, value)
    } else {
        (key, String::new())
    }
}

fn without_heads(name: &str) -> (r: String)
    ensures
        r@ == short_branch(name@),
{
    match text::strip_prefix(name, "refs/heads/") {
        Some(rest) => rest,
        None => text::owned(name),
    }
}

fn describe(current: Option<WorktreeEntry>, line: &str) -> (r: Option<WorktreeEntry>)
    ensures
        entry_view(r) == described(entry_view(current), line@),
{
    let (key, value) = key_and_value(line);
    let k = key.as_str();
    if text::same(k, "worktree") {
        let r = Some(WorktreeEntry { path: value, head: String::new(), branch: None });
        assert(entry_view(r) =~= described(entry_view(current), line@));
        return r;
    }
    match current {
        None => None,
        Some(e) => {
            let mut e = e;
            if text::same(k, "HEAD") {
                e.head = value;
            } else if text::same(k, "branch") {
                e.branch = Some(without_heads(value.as_str()));
            } else if text::same(k, "detached") {
                e.branch = None;
            }
            Some(e)
        },
    }
}

/// The path that a status line tells of, behind its two marks and a space.
pub open spec fn status_path(line: Seq<char>) -> Seq<char> {
    line.skip(if line.len() < 3 {
        line.len() as int
    } else {
        3
    })
}

/// A status line that tells of a path outside all of the prefixes.
pub open spec fn dirt(line: Seq<char>, prefixes: Seq<Seq<char>>) -> bool {
    line.len() > 0 && forall|i: int|
        0 <= i < prefixes.len() ==> !text::begins_with(status_path(line), #[trigger] prefixes[i])
}

/// The changed paths that git told, one on each line.
pub open spec fn told_paths(out: Seq<char>) -> Seq<Seq<char>> {
    storage::filled_only(text::lines_of(out))
}

/// What a commit of everything asks for next, or what it came to.
#[derive(Debug)]
pub enum CommitStep {
    Call(GitCall),
    Done(Result<String, Error>),
}

/// Git, for one repository.
pub struct Git {
    repo_root: String,
}

impl Git {
    /// The repository's directory.
    pub closed spec fn root(self) -> Seq<char> {
        self.repo_root@
    }

    /// Git for the repository at `repo_root`.
    pub fn new(repo_root: String) -> (r: Self)
        ensures
            r.root() == repo_root@,
    {
        Self { repo_root }
    }

    /// Asks whether the directory is inside a repository.
    pub fn is_inside_repo_call(&self) -> (r: GitCall)
        ensures
            r@ == (Call { args: seq!["rev-parse"@, "--is-inside-work-tree"@], cwd: self.root() }),
    {
        GitCall::at(self.repo_root.as_str()).arg("rev-parse").arg("--is-inside-work-tree")
    }

    /// Whether the directory is inside a repository.
    pub fn is_inside_repo(&self, reply: &GitReply) -> (r: bool)
        ensures
            r == (reply.success && text::trimmed(reply.stdout@) == "true"@),
    {
        reply.success && text::same(text::trim(reply.stdout.as_str()).as_str(), "true")
    }

    /// Asks for uncommitted changes.
    pub fn is_clean_call(&self) -> (r: GitCall)
        ensures
            r@ == (Call { args: seq!["status"@, "--porcelain"@], cwd: self.root() }),
    {
        GitCall::at(self.repo_root.as_str()).arg("status").arg("--porcelain")
    }

    /// Whether there are no uncommitted changes.
    pub fn is_clean(&self, reply: &GitReply) -> (r: Result<bool, Error>)
        ensures
            if reply.success {
                r == Ok::<bool, Error>(text::trimmed(reply.stdout@).len() == 0)
            } else {
                is_failure(r, Call { args: seq!["status"@, "--porcelain"@], cwd: self.root() }, *reply)
            },
    {
        match run_git(&self.is_clean_call(), reply) {
            Ok(out) => Ok(text::is_blank(out.as_str())),
            Err(e) => Err(e),
        }
    }

    /// Whether there are no uncommitted changes but under the prefixes.
    pub fn is_clean_excluding(&self, prefixes: &Vec<String>, reply: &GitReply) -> (r: Result<
        bool,
        Error,
    >)
        ensures
            if reply.success {
                r == Ok::<bool, Error>(
                    forall|i: int|
                        0 <= i < text::lines_of(reply.stdout@).len() ==> !dirt(
                            #[trigger] text::lines_of(reply.stdout@)[i],
                            text::texts(prefixes@),
                        ),
                )
            } else {
                is_failure(r, Call { args: seq!["status"@, "--porcelain"@], cwd: self.root() }, *reply)
            },
    {
        let out = match run_git(&self.is_clean_call(), reply) {
            Ok(out) => out,
            Err(e) => {
                return Err(e);
            },
        };
        let lines = text::lines(out.as_str());
        let mut i: usize = 0;
        while i < lines.len()
            invariant
                i <= lines.len(),
                reply.success,
                out@ == reply.stdout@,
                text::texts(lines@) == text::lines_of(out@),
                forall|j: int|
                    0 <= j < i ==> !dirt(
                        #[trigger] text::lines_of(out@)[j],
                        text::texts(prefixes@),
                    ),
            decreases lines.len() - i,
        {
            assert(text::texts(lines@)[i as int] == lines@[i as int]@);
            if Self::is_dirt(lines[i].as_str(), prefixes) {
                return Ok(false);
            }
            i += 1;
        }
        Ok(true)
    }

    fn is_dirt(line: &str, prefixes: &Vec<String>) -> (r: bool)
        ensures
            r == dirt(line@, text::texts(prefixes@)),
    {
        let v = text::chars_of(line);
        if v.len() == 0 {
            return false;
        }
        let from: usize = if v.len() < 3 {
            v.len()
        } else {
            3
        };
        let path = text::slice_string(&v, from, v.len());
        assert(path@ == status_path(line@));
        let mut i: usize = 0;
        while i < prefixes.len()
            invariant
                i <= prefixes.len(),
                line@.len() > 0,
                path@ == status_path(line@),
                forall|j: int|
                    0 <= j < i ==> !text::begins_with(path@, #[trigger] text::texts(prefixes@)[j]),
            decreases prefixes.len() - i,
        {
            assert(text::texts(prefixes@)[i as int] == prefixes@[i as int]@);
            if text::starts_with(path.as_str(), prefixes[i].as_str()) {
                return false;
            }
            i += 1;
        }
        true
    }

    /// Asks for the commit that is checked out.
    pub fn head_sha_call(&self) -> (r: GitCall)
        ensures
            r@ == (Call { args: seq!["rev-parse"@, "HEAD"@], cwd: self.root() }),
    {
        GitCall::at(self.repo_root.as_str()).arg("rev-parse").arg("HEAD")
    }

    /// The commit that is checked out.
    pub fn head_sha(&self, reply: &GitReply) -> (r: Result<String, Error>)
        ensures
            if reply.success {
                r matches Ok(s) && s@ == text::trimmed(reply.stdout@)
            } else {
                is_failure(r, Call { args: seq!["rev-parse"@, "HEAD"@], cwd: self.root() }, *reply)
            },
    {
        run_git_trim(&self.head_sha_call(), reply)
    }

    /// Asks what a name resolves to.
    pub fn resolve_ref_call(&self, r: &str) -> (c: GitCall)
        ensures
            c@ == (Call {
                args: seq!["rev-parse"@, "--verify"@, r@ + "^{}"@],
                cwd: self.root(),
            }),
    {
        let mut arg = text::owned(r);
        arg.push_str("^{}");
        GitCall::at(self.repo_root.as_str()).arg("rev-parse").arg("--verify").arg(arg.as_str())
    }

    /// What a name resolves to, if to anything.
    pub fn resolve_ref(&self, reply: &GitReply) -> (r: Option<String>)
        ensures
            match r {
                Some(s) => reply.success && s@ == text::trimmed(reply.stdout@),
                None => !reply.success,
            },
    {
        if !reply.success {
            return None;
        }
        Some(text::trim(reply.stdout.as_str()))
    }

    /// Asks whether a branch exists.
    pub fn branch_exists_call(&self, branch: &str) -> (r: GitCall)
        ensures
            r@ == (Call {
                args: seq!["show-ref"@, "--verify"@, "--quiet"@, "refs/heads/"@ + branch@],
                cwd: self.root(),
            }),
    {
        let mut name = text::owned("refs/heads/");
        name.push_str(branch);
        GitCall::at(self.repo_root.as_str()).arg("show-ref").arg("--verify").arg("--quiet").arg(
            name.as_str(),
        )
    }

    /// Whether a branch exists.
    pub fn branch_exists(&self, reply: &GitReply) -> (r: bool)
        ensures
            r == reply.success,
    {
        reply.success
    }

    /// Makes a branch at a commit.
    pub fn create_branch_at_call(&self, branch: &str, sha: &str) -> (r: GitCall)
        ensures
            r@ == (Call { args: seq!["branch"@, branch@, sha@], cwd: self.root() }),
    {
        GitCall::at(self.repo_root.as_str()).arg("branch").arg(branch).arg(sha)
    }

    /// That the branch was made.
    pub fn create_branch_at(&self, branch: &str, sha: &str, reply: &GitReply) -> (r: Result<
        (),
        Error,
    >)
        ensures
            if reply.success {
                r is Ok
            } else {
                is_failure(r, Call { args: seq!["branch"@, branch@, sha@], cwd: self.root() }, *reply)
            },
    {
        run_git_unit(&self.create_branch_at_call(branch, sha), reply)
    }

    /// Points a branch at a commit, wherever it stood.
    pub fn update_branch_ref_call(&self, branch: &str, sha: &str) -> (r: GitCall)
        ensures
            r@ == (Call {
                args: seq!["update-ref"@, "refs/heads/"@ + branch@, sha@],
                cwd: self.root(),
            }),
    {
        let mut name = text::owned("refs/heads/");
        name.push_str(branch);
        GitCall::at(self.repo_root.as_str()).arg("update-ref").arg(name.as_str()).arg(sha)
    }

    /// Asks for the first line of a branch's last commit message.
    pub fn log_subject_call(&self, branch: &str) -> (r: GitCall)
        ensures
            r@ == (Call { args: seq!["log"@, "-1"@, "--format=%s"@, branch@], cwd: self.root() }),
    {
        GitCall::at(self.repo_root.as_str()).arg("log").arg("-1").arg("--format=%s").arg(branch)
    }

    /// Makes a worktree with the branch checked out.
    pub fn worktree_add_call(&self, wt: &str, branch: &str) -> (r: GitCall)
        ensures
            r@ == (Call { args: seq!["worktree"@, "add"@, wt@, branch@], cwd: self.root() }),
    {
        GitCall::at(self.repo_root.as_str()).arg("worktree").arg("add").arg(wt).arg(branch)
    }

    /// That the worktree was made.
    pub fn worktree_add(&self, wt: &str, branch: &str, reply: &GitReply) -> (r: Result<(), Error>)
        ensures
            if reply.success {
                r is Ok
            } else {
                is_failure(
                    r,
                    Call { args: seq!["worktree"@, "add"@, wt@, branch@], cwd: self.root() },
                    *reply,
                )
            },
    {
        run_git_unit(&self.worktree_add_call(wt, branch), reply)
    }

    /// Makes a worktree at the tip of the branch without checking the branch
    /// out, so that several worktrees can start from it.
    pub fn worktree_add_detached_call(&self, wt: &str, branch: &str) -> (r: GitCall)
        ensures
            r@ == (Call {
                args: seq!["worktree"@, "add"@, "--detach"@, wt@, branch@],
                cwd: self.root(),
            }),
    {
        GitCall::at(self.repo_root.as_str()).arg("worktree").arg("add").arg("--detach").arg(wt).arg(
            branch,
        )
    }

    /// Removes a worktree, whatever it holds.
    pub fn worktree_remove_call(&self, wt: &str) -> (r: GitCall)
        ensures
            r@ == (Call { args: seq!["worktree"@, "remove"@, "--force"@, wt@], cwd: self.root() }),
    {
        GitCall::at(self.repo_root.as_str()).arg("worktree").arg("remove").arg("--force").arg(wt)
    }

    /// That the worktree was removed.
    pub fn worktree_remove(&self, wt: &str, reply: &GitReply) -> (r: Result<(), Error>)
        ensures
            if reply.success {
                r is Ok
            } else {
                is_failure(
                    r,
                    Call { args: seq!["worktree"@, "remove"@, "--force"@, wt@], cwd: self.root() },
                    *reply,
                )
            },
    {
        run_git_unit(&self.worktree_remove_call(wt), reply)
    }

    /// Forgets worktrees whose directories are gone.
    pub fn worktree_prune_call(&self) -> (r: GitCall)
        ensures
            r@ == (Call { args: seq!["worktree"@, "prune"@], cwd: self.root() }),
    {
        GitCall::at(self.repo_root.as_str()).arg("worktree").arg("prune")
    }

    /// Lets a worktree go of its branch; the branch stays as it is.
    pub fn detach_worktree_call(&self, wt: &str) -> (r: GitCall)
        ensures
            r@ == (Call { args: seq!["checkout"@, "--detach"@], cwd: wt@ }),
    {
        GitCall::at(wt).arg("checkout").arg("--detach")
    }

    /// Asks for all worktrees.
    pub fn worktree_list_call(&self) -> (r: GitCall)
        ensures
            r@ == (Call { args: seq!["worktree"@, "list"@, "--porcelain"@], cwd: self.root() }),
    {
        GitCall::at(self.repo_root.as_str()).arg("worktree").arg("list").arg("--porcelain")
    }

    /// All worktrees.
    pub fn worktree_list(&self, reply: &GitReply) -> (r: Result<Vec<WorktreeEntry>, Error>)
        ensures
            if reply.success {
                r matches Ok(v) && entries_view(v@) == worktrees_in(reply.stdout@)
            } else {
                is_failure(
                    r,
                    Call { args: seq!["worktree"@, "list"@, "--porcelain"@], cwd: self.root() },
                    *reply,
                )
            },
    {
        let out = match run_git(&self.worktree_list_call(), reply) {
            Ok(out) => out,
            Err(e) => {
                return Err(e);
            },
        };
        let lines = text::lines(out.as_str());
        let ghost all = text::lines_of(out@);
        let mut entries: Vec<WorktreeEntry> = Vec::new();
        let mut current: Option<WorktreeEntry> = None;
        let mut i: usize = 0;
        assert(entries_view(entries@) =~= Seq::empty());
        while i < lines.len()
            invariant
                i <= lines.len(),
                text::texts(lines@) == all,
                (entries_view(entries@), entry_view(current)) == listing(all.take(i as int)),
            decreases lines.len() - i,
        {
            let ghost next = all.take(i as int + 1);
            assert(next.drop_last() == all.take(i as int));
            assert(text::texts(lines@)[i as int] == lines@[i as int]@);
            assert(next.last() == lines@[i as int]@);
            let ghost done = entries_view(entries@);
            if text::chars_of(lines[i].as_str()).len() == 0 {
                match current {
                    Some(e) => {
                        entries.push(e);
                        assert(entries_view(entries@) =~= done.push(e@));
                    },
                    None => {},
                }
                current = None;
            } else {
                current = describe(current, lines[i].as_str());
            }
            i += 1;
        }
        assert(all.take(all.len() as int) == all);
        let ghost done = entries_view(entries@);
        if let Some(e) = current {
            entries.push(e);
            assert(entries_view(entries@) =~= done.push(e@));
        }
        Ok(entries)
    }

    /// Stages everything in a worktree, new files too.
    pub fn stage_all_in_call(&self, wt: &str) -> (r: GitCall)
        ensures
            r@ == (Call { args: seq!["add"@, "-A"@], cwd: wt@ }),
    {
        GitCall::at(wt).arg("add").arg("-A")
    }

    /// Takes everything in a worktree off the stage again.
    pub fn unstage_all_in_call(&self, wt: &str) -> (r: GitCall)
        ensures
            r@ == (Call { args: seq!["reset"@], cwd: wt@ }),
    {
        GitCall::at(wt).arg("reset")
    }

    /// Asks for the changes against a base.
    pub fn diff_against_call(&self, wt: &str, base: &str) -> (r: GitCall)
        ensures
            r@ == (Call { args: seq!["diff"@, base@], cwd: wt@ }),
    {
        GitCall::at(wt).arg("diff").arg(base)
    }

    /// The changes against a base.
    pub fn diff_against(&self, wt: &str, base: &str, reply: &GitReply) -> (r: Result<String, Error>)
        ensures
            if reply.success {
                r matches Ok(s) && s@ == reply.stdout@
            } else {
                is_failure(r, Call { args: seq!["diff"@, base@], cwd: wt@ }, *reply)
            },
    {
        run_git(&self.diff_against_call(wt, base), reply)
    }

    /// Asks for the paths changed against a base.
    pub fn diff_paths_against_call(&self, wt: &str, base: &str) -> (r: GitCall)
        ensures
            r@ == (Call { args: seq!["diff"@, "--name-only"@, base@], cwd: wt@ }),
    {
        GitCall::at(wt).arg("diff").arg("--name-only").arg(base)
    }

    /// The paths changed against a base.
    pub fn diff_paths_against(&self, wt: &str, base: &str, reply: &GitReply) -> (r: Result<
        Vec<String>,
        Error,
    >)
        ensures
            if reply.success {
                r matches Ok(v) && text::texts(v@) == told_paths(reply.stdout@)
            } else {
                is_failure(r, Call { args: seq!["diff"@, "--name-only"@, base@], cwd: wt@ }, *reply)
            },
    {
        match run_git(&self.diff_paths_against_call(wt, base), reply) {
            Ok(out) => Ok(storage::keep_filled(text::lines(out.as_str()))),
            Err(e) => Err(e),
        }
    }

    /// The commit command.
    pub fn commit_call(&self, wt: &str, msg: &str) -> (r: GitCall)
        ensures
            r@ == commit_command(wt@, msg@),
    {
        GitCall::at(wt).arg("-c").arg("user.email=autorize@local").arg("-c").arg(
            "user.name=autorize",
        ).arg("commit").arg("-m").arg(msg)
    }

    /// Asks for the commit that is checked out in a worktree.
    pub fn head_in_call(&self, wt: &str) -> (r: GitCall)
        ensures
            r@ == (Call { args: seq!["rev-parse"@, "HEAD"@], cwd: wt@ }),
    {
        GitCall::at(wt).arg("rev-parse").arg("HEAD")
    }

    /// Commits everything in a worktree: stages, commits, and asks for the new
    /// commit. `replies` are the answers so far; the first failure ends it.
    pub fn commit_all_in(&self, wt: &str, msg: &str, replies: &Vec<GitReply>) -> (r: CommitStep)
        ensures
            ({
                let staging = Call { args: seq!["add"@, "-A"@], cwd: wt@ };
                let asking = Call { args: seq!["rev-parse"@, "HEAD"@], cwd: wt@ };
                let n = replies@.len();
                if n == 0 {
                    r matches CommitStep::Call(c) && c@ == staging
                } else if !replies@[0].success {
                    r matches CommitStep::Done(d) && is_failure(d, staging, replies@[0])
                } else if n == 1 {
                    r matches CommitStep::Call(c) && c@ == commit_command(wt@, msg@)
                } else if !replies@[1].success {
                    r matches CommitStep::Done(d) && is_failure(
                        d,
                        commit_command(wt@, msg@),
                        replies@[1],
                    )
                } else if n == 2 {
                    r matches CommitStep::Call(c) && c@ == asking
                } else if !replies@[2].success {
                    r matches CommitStep::Done(d) && is_failure(d, asking, replies@[2])
                } else {
                    r matches CommitStep::Done(Ok(s)) && s@ == text::trimmed(replies@[2].stdout@)
                }
            }),
    {
        let staging = self.stage_all_in_call(wt);
        if replies.len() == 0 {
            return CommitStep::Call(staging);
        }
        if let Err(e) = run_git(&staging, &replies[0]) {
            return CommitStep::Done(Err(e));
        }
        let committing = self.commit_call(wt, msg);
        if replies.len() == 1 {
            return CommitStep::Call(committing);
        }
        if let Err(e) = run_git(&committing, &replies[1]) {
            return CommitStep::Done(Err(e));
        }
        let asking = self.head_in_call(wt);
        if replies.len() == 2 {
            return CommitStep::Call(asking);
        }
        CommitStep::Done(run_git_trim(&asking, &replies[2]))
    }
}

/// The commit command, with the harness as author.
pub open spec fn commit_command(wt: Seq<char>, msg: Seq<char>) -> Call {
    Call {
        args: seq![
            "-c"@,
            "user.email=autorize@local"@,
            "-c"@,
            "user.name=autorize"@,
            "commit"@,
            "-m"@,
            msg,
        ],
        cwd: wt,
    }
}

// ---------------------------------------------------------------------------
// Boundaries
// ---------------------------------------------------------------------------

/// A set of globs in the making.
#[verifier::external_type_specification]
#[verifier::external_body]
pub struct ExGlobSetBuilder(globset::GlobSetBuilder);

/// A set of globs.
#[verifier::external_type_specification]
#[verifier::external_body]
pub struct ExGlobSet(globset::GlobSet);

/// The globs put into a set in the making, in their order.
pub uninterp spec fn builder_globs(b: globset::GlobSetBuilder) -> Seq<Seq<char>>;

/// The globs of a set, in their order.
pub uninterp spec fn set_globs(s: globset::GlobSet) -> Seq<Seq<char>>;

/// Why a text is no glob, where it is none.
pub uninterp spec fn glob_refusal(glob: Seq<char>) -> Option<Seq<char>>;

/// Why no set can be built of globs, where none can.
pub uninterp spec fn set_refusal(globs: Seq<Seq<char>>) -> Option<Seq<char>>;

/// Whether a glob matches a path.
pub uninterp spec fn glob_accepts(glob: Seq<char>, path: Seq<char>) -> bool;

/// Calls `GlobSetBuilder::new`, which begins a set without globs.
#[verifier::external_body]
fn begin_globs() -> (r: globset::GlobSetBuilder)
    ensures
        builder_globs(r) == Seq::<Seq<char>>::empty(),
{
    globset::GlobSetBuilder::new()
}

/// Reads a glob with `Glob::new` and puts it into a set in the making with
/// `GlobSetBuilder::add`. Whether a text is a glob, and the message where it is
/// none, are functions of the text alone.
#[verifier::external_body]
fn add_glob(b: &mut globset::GlobSetBuilder, glob: &str) -> (r: Result<(), String>)
    ensures
        match r {
            Ok(_) => glob_refusal(glob@) is None && builder_globs(*final(b)) == builder_globs(
                *old(b),
            ).push(glob@),
            Err(e) => glob_refusal(glob@) == Some(e@) && builder_globs(*final(b)) == builder_globs(
                *old(b),
            ),
        },
{
    b.add(globset::Glob::new(glob).map_err(|e| e.to_string())?);
    Ok(())
}

/// Calls `GlobSetBuilder::build`: the set holds the globs put in so far. Whether
/// a set can be built, and the message where it cannot, are functions of the
/// globs alone.
#[verifier::external_body]
fn build_globs(b: &globset::GlobSetBuilder) -> (r: Result<globset::GlobSet, String>)
    ensures
        match r {
            Ok(s) => set_refusal(builder_globs(*b)) is None && set_globs(s) == builder_globs(*b),
            Err(e) => set_refusal(builder_globs(*b)) == Some(e@),
        },
{
    b.build().map_err(|e| e.to_string())
}

/// Calls `GlobSet::is_match`: true exactly if some glob of the set matches the
/// path. Whether one glob matches one path is a function of the two alone.
#[verifier::external_body]
fn globs_match(s: &globset::GlobSet, path: &str) -> (r: bool)
    ensures
        r == (exists|i: int|
            0 <= i < set_globs(*s).len() && glob_accepts(#[trigger] set_globs(*s)[i], path@)),
{
    s.is_match(path)
}

/// Whether some glob matches a path.
pub open spec fn denied(globs: Seq<Seq<char>>, path: Seq<char>) -> bool {
    exists|i: int| 0 <= i < globs.len() && glob_accepts(#[trigger] globs[i], path)
}

/// The paths that some glob matches, in their order.
pub open spec fn denied_paths(globs: Seq<Seq<char>>, paths: Seq<Seq<char>>) -> Seq<Seq<char>>
    decreases paths.len(),
{
    if paths.len() == 0 {
        Seq::empty()
    } else if denied(globs, paths.last()) {
        denied_paths(globs, paths.drop_last()).push(paths.last())
    } else {
        denied_paths(globs, paths.drop_last())
    }
}

/// The message for the first text that is no glob, or else for the set.
pub open spec fn globs_fault(globs: Seq<Seq<char>>) -> Option<Seq<char>> {
    match first_refusal(globs) {
        Some(m) => Some(m),
        None => set_refusal(globs),
    }
}

/// The message for the first text that is no glob.
pub open spec fn first_refusal(globs: Seq<Seq<char>>) -> Option<Seq<char>>
    decreases globs.len(),
{
    if globs.len() == 0 {
        None
    } else {
        match first_refusal(globs.drop_last()) {
            Some(m) => Some(m),
            None => glob_refusal(globs.last()),
        }
    }
}

proof fn lemma_first_refusal(globs: Seq<Seq<char>>, n: int)
    requires
        0 <= n <= globs.len(),
        first_refusal(globs.take(n)) is Some,
    ensures
        first_refusal(globs) == first_refusal(globs.take(n)),
    decreases globs.len() - n,
{
    if n < globs.len() {
        assert(globs.take(n + 1).drop_last() == globs.take(n));
        lemma_first_refusal(globs, n + 1);
    } else {
        assert(globs.take(n) == globs);
    }
}

/// The changed paths that the deny patterns match, in their order; an error for
/// a pattern that is no glob. Without patterns nothing is denied.
pub fn deny_path_matches(paths: &Vec<String>, deny_patterns: &Vec<String>) -> (r: Result<
    Vec<String>,
    Error,
>)
    ensures
        ({
            let globs = text::texts(deny_patterns@);
            if globs.len() == 0 {
                r matches Ok(v) && v@.len() == 0
            } else {
                match globs_fault(globs) {
                    Some(m) => r matches Err(Error::Glob(e)) && e@ == m,
                    None => r matches Ok(v) && text::texts(v@) == denied_paths(
                        globs,
                        text::texts(paths@),
                    ),
                }
            }
        }),
{
    let ghost globs = text::texts(deny_patterns@);
    if deny_patterns.len() == 0 {
        return Ok(Vec::new());
    }
    let mut builder = begin_globs();
    let mut i: usize = 0;
    assert(globs.take(0) =~= Seq::empty());
    while i < deny_patterns.len()
        invariant
            i <= deny_patterns.len(),
            globs == text::texts(deny_patterns@),
            builder_globs(builder) == globs.take(i as int),
            first_refusal(globs.take(i as int)) is None,
        decreases deny_patterns.len() - i,
    {
        let ghost next = globs.take(i as int + 1);
        assert(next.drop_last() == globs.take(i as int));
        assert(next == globs.take(i as int).push(deny_patterns@[i as int]@));
        match add_glob(&mut builder, deny_patterns[i].as_str()) {
            Ok(_) => {},
            Err(e) => {
                proof {
                    lemma_first_refusal(globs, i as int + 1);
                }
                return Err(Error::Glob(e));
            },
        }
        i += 1;
    }
    assert(globs.take(globs.len() as int) == globs);
    let set = match build_globs(&builder) {
        Ok(s) => s,
        Err(e) => {
            return Err(Error::Glob(e));
        },
    };
    let ghost all = text::texts(paths@);
    let mut out: Vec<String> = Vec::new();
    let mut j: usize = 0;
    assert(text::texts(out@) =~= Seq::empty());
    assert(all.take(0) =~= Seq::empty());
    while j < paths.len()
        invariant
            j <= paths.len(),
            all == text::texts(paths@),
            set_globs(set) == globs,
            text::texts(out@) == denied_paths(globs, all.take(j as int)),
        decreases paths.len() - j,
    {
        let ghost next = all.take(j as int + 1);
        assert(next.drop_last() == all.take(j as int));
        assert(next.last() == paths@[j as int]@);
        if globs_match(&set, paths[j].as_str()) {
            let ghost before = text::texts(out@);
            out.push(text::owned(paths[j].as_str()));
            assert(text::texts(out@) =~= before.push(paths@[j as int]@));
        }
        j += 1;
    }
    assert(all.take(all.len() as int) == all);
    Ok(out)
}

/// The denied paths are exactly the changed paths that some glob matches.
pub proof fn law_denied_iff_matched(globs: Seq<Seq<char>>, paths: Seq<Seq<char>>, p: Seq<char>)
    ensures
        denied_paths(globs, paths).contains(p) <==> paths.contains(p) && denied(globs, p),
    decreases paths.len(),
{
    if paths.len() > 0 {
        let init = paths.drop_last();
        let last = paths.last();
        law_denied_iff_matched(globs, init, p);
        let d = denied_paths(globs, paths);
        let di = denied_paths(globs, init);
        if d.contains(p) {
            let k = choose|k: int| 0 <= k < d.len() && d[k] == p;
            if k < di.len() {
                assert(di[k] == p);
                let j = choose|j: int| 0 <= j < init.len() && init[j] == p;
                assert(paths[j] == p);
            } else {
                assert(paths[paths.len() - 1] == p);
            }
        }
        if paths.contains(p) && denied(globs, p) {
            let j = choose|j: int| 0 <= j < paths.len() && paths[j] == p;
            if j < init.len() {
                assert(init[j] == p);
                let k = choose|k: int| 0 <= k < di.len() && di[k] == p;
                assert(d[k] == p);
            } else {
                assert(d[di.len() as int] == p);
            }
        }
    }
}

proof fn lemma_key_and_value(word: Seq<char>, value: Seq<char>)
    requires
        !word.contains(' '),
    ensures
        key_of(word + seq![' '] + value) == word,
        value_of(word + seq![' '] + value) == value,
        key_of(word) == word,
{
    let line = word + seq![' '] + value;
    assert(line == word + (seq![' '] + value));
    text::lemma_find_first(word, seq![' '] + value, ' ');
    assert(line.take(word.len() as int) == word);
    assert(line.skip(word.len() as int + 1) == value);
    text::lemma_find_first(word, Seq::empty(), ' ');
    assert(word + Seq::<char>::empty() == word);
    assert(word.take(word.len() as int) == word);
}

/// Git's listing gives back the worktrees that it was made from: a block that
/// tells of a path, a commit and a branch, or none, completes a worktree with
/// just these, behind those that were complete before.
pub proof fn law_listing_tells_each_worktree(
    before: Seq<Seq<char>>,
    path: Seq<char>,
    head: Seq<char>,
    branch: Seq<char>,
)
    requires
        listing(before).1 is None,
    ensures
        listing(
            before + seq![
                "worktree"@ + seq![' '] + path,
                "HEAD"@ + seq![' '] + head,
                "branch"@ + seq![' '] + ("refs/heads/"@ + branch),
                Seq::<char>::empty(),
            ],
        ) == (listing(before).0.push(Entry { path, head, branch: Some(branch) }), None::<Entry>),
        listing(
            before + seq![
                "worktree"@ + seq![' '] + path,
                "HEAD"@ + seq![' '] + head,
                "detached"@,
                Seq::<char>::empty(),
            ],
        ) == (listing(before).0.push(Entry { path, head, branch: None }), None::<Entry>),
{
    reveal_strlit("worktree");
    reveal_strlit("HEAD");
    reveal_strlit("branch");
    reveal_strlit("detached");
    reveal_strlit("refs/heads/");
    assert("worktree"@[0] == 'w' && "HEAD"@[0] == 'H' && "branch"@[0] == 'b' && "detached"@[0]
        == 'd');
    let full = "refs/heads/"@ + branch;
    lemma_key_and_value("worktree"@, path);
    lemma_key_and_value("HEAD"@, head);
    lemma_key_and_value("branch"@, full);
    lemma_key_and_value("detached"@, Seq::empty());
    text::lemma_starts("refs/heads/"@, branch);
    assert(full.skip("refs/heads/"@.len() as int) == branch);
    let a = "worktree"@ + seq![' '] + path;
    let b = "HEAD"@ + seq![' '] + head;
    let c = "branch"@ + seq![' '] + full;
    let d = "detached"@;
    let none = Seq::<char>::empty();
    let l1 = before.push(a);
    let l2 = l1.push(b);
    let l3 = l2.push(c);
    let m3 = l2.push(d);
    assert(l1.drop_last() == before);
    assert(l2.drop_last() == l1);
    assert(l3.drop_last() == l2);
    assert(m3.drop_last() == l2);
    assert(l3.push(none).drop_last() == l3);
    assert(m3.push(none).drop_last() == m3);
    assert(before + seq![a, b, c, none] == l3.push(none));
    assert(before + seq![a, b, d, none] == m3.push(none));
    assert(listing(l1) == (listing(before).0, Some(Entry { path, head: none, branch: None })));
    assert(listing(l2) == (listing(before).0, Some(Entry { path, head, branch: None })));
    assert(listing(l3) == (listing(before).0, Some(Entry { path, head, branch: Some(branch) })));
    assert(listing(m3) == (listing(before).0, Some(Entry { path, head, branch: None })));
}

/// The worktrees of a listing are those that its lines complete, and one more
/// where its last block is left open.
pub proof fn law_last_worktree_counts(out: Seq<char>)
    ensures
        listing(text::lines_of(out)).1 is None ==> worktrees_in(out) == listing(
            text::lines_of(out),
        ).0,
        listing(text::lines_of(out)).1 matches Some(e) ==> worktrees_in(out).last() == e
            && worktrees_in(out).drop_last() == listing(text::lines_of(out)).0,
{
    if let Some(e) = listing(text::lines_of(out)).1 {
        assert(worktrees_in(out).drop_last() == listing(text::lines_of(out)).0);
    }
}

/// A status line tells of the path behind its two marks, and of a change that
/// counts unless the path lies below one of the prefixes.
pub proof fn law_status_line_tells_its_path(
    x: char,
    y: char,
    path: Seq<char>,
    prefixes: Seq<Seq<char>>,
)
    ensures
        status_path(seq![x, y, ' '] + path) == path,
        dirt(seq![x, y, ' '] + path, prefixes) <==> forall|k: int|
            0 <= k < prefixes.len() ==> !text::begins_with(path, #[trigger] prefixes[k]),
        !dirt(Seq::empty(), prefixes),
{
    assert((seq![x, y, ' '] + path).skip(3) == path);
}

/// A failed command is told with every word of it and with git's own words.
pub proof fn law_failure_names_the_command(call: Call, stderr: Seq<char>, k: int)
    requires
        0 <= k < call.args.len(),
    ensures
        text::begins_with(failure_message(call, stderr), "git "@),
        text::occurs_in(call.args[k], failure_message(call, stderr)),
        text::finishes_with(failure_message(call, stderr), text::trimmed(stderr)),
{
    let words = text::joined(call.args, " "@);
    let end = text::trimmed(stderr);
    let m = failure_message(call, stderr);
    text::law_joined_holds_each(call.args, " "@, k);
    text::lemma_occurs_wider(call.args[k], "git "@, words, " failed: "@ + end);
    assert(m == "git "@ + words + (" failed: "@ + end));
    assert(m == "git "@ + (words + " failed: "@ + end));
    text::lemma_starts("git "@, words + " failed: "@ + end);
    assert(m.skip(m.len() - end.len()) == end);
}

/// A commit is made in the worktree, under the message given, in the name of the
/// harness.
pub proof fn law_commit_is_in_the_harness_name(wt: Seq<char>, msg: Seq<char>)
    ensures
        commit_command(wt, msg).cwd == wt,
        commit_command(wt, msg).args == seq![
            "-c"@,
            "user.email=autorize@local"@,
            "-c"@,
            "user.name=autorize"@,
            "commit"@,
            "-m"@,
            msg,
        ],
{
}

/// Boundaries are faulty as soon as one of their globs is.
pub proof fn law_every_glob_is_checked(globs: Seq<Seq<char>>, k: int)
    requires
        0 <= k < globs.len(),
        glob_refusal(globs[k]) is Some,
    ensures
        globs_fault(globs) is Some,
        first_refusal(globs) is Some,
    decreases globs.len(),
{
    if k < globs.len() - 1 {
        law_every_glob_is_checked(globs.drop_last(), k);
    }
}

/// Denied paths come in the order in which the paths were told: those of a list,
/// and then those of what follows it.
pub proof fn law_denied_paths_keep_their_order(
    globs: Seq<Seq<char>>,
    a: Seq<Seq<char>>,
    b: Seq<Seq<char>>,
)
    ensures
        denied_paths(globs, a + b) == denied_paths(globs, a) + denied_paths(globs, b),
    decreases b.len(),
{
    if b.len() == 0 {
        assert(a + b == a);
        assert(denied_paths(globs, a) + denied_paths(globs, b) == denied_paths(globs, a));
    } else {
        assert((a + b).drop_last() == a + b.drop_last());
        assert((a + b).last() == b.last());
        law_denied_paths_keep_their_order(globs, a, b.drop_last());
        assert(denied_paths(globs, a + b) =~= denied_paths(globs, a) + denied_paths(globs, b));
    }
}

/// A line of git's listing that tells of nothing else leaves a worktree as it
/// was told so far, and lines before the first worktree tell of none.
pub proof fn law_other_lines_say_nothing(e: Entry, line: Seq<char>)
    requires
        key_of(line) != "worktree"@,
    ensures
        described(None, line) is None,
        key_of(line) != "HEAD"@ && key_of(line) != "branch"@ && key_of(line) != "detached"@
            ==> described(Some(e), line) == Some(e),
        described(Some(e), line) matches Some(f) && f.path == e.path,
{
}

} // verus!
