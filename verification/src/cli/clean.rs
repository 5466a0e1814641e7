//! Tidying a finished or abandoned experiment.
use vstd::prelude::*;

use crate::error::Error;
use crate::text;
use crate::worktree::{Call, Git, GitCall, WorktreeEntry};

verus! {

/// What tidying takes.
#[derive(Debug)]
pub struct CleanArgs {
    pub name: String,
    /// Also delete the worktrees that were kept.
    pub remove_worktrees: bool,
}

/// Something to be done about worktrees.
#[derive(Debug, Clone, Copy, PartialEq, Eq, Structural)]
pub enum Tidy {
    /// Delete it.
    Remove,
    /// Let it go of the branch it holds.
    Detach,
    /// Take everything in it off the stage.
    Unstage,
    /// Forget the worktrees that are gone.
    Prune,
}

/// Whether a canonical path is a canonical directory or lies below it.
pub open spec fn lies_under(path: Seq<char>, dir: Seq<char>) -> bool {
    path == dir || text::begins_with(
        path,
        if dir.len() > 0 && dir.last() == '/' {
            dir
        } else {
            dir.push('/')
        },
    )
}

/// Tells whether a canonical path is a canonical directory or lies below it.
pub fn is_under(path: &str, dir: &str) -> (r: bool)
    ensures
        r == lies_under(path@, dir@),
{
    if text::same(path, dir) {
        return true;
    }
    let mut below = text::owned(dir);
    let d = text::chars_of(dir);
    if !(d.len() > 0 && d[d.len() - 1] == '/') {
        below.push('/');
    }
    text::starts_with(path, below.as_str())
}

/// What is done to a worktree: a vanished one is left to git; one of the
/// experiment is removed where that is wanted, and else taken off the stage; one
/// that holds the tracking branch lets it go, unless it is the main one.
pub open spec fn tidying(
    remove: bool,
    branch: Seq<char>,
    held: Option<Seq<char>>,
    at: Option<Seq<char>>,
    experiment: Option<Seq<char>>,
    main: Option<Seq<char>>,
) -> Seq<Tidy> {
    match at {
        None => Seq::empty(),
        Some(p) => {
            let inside = experiment matches Some(e) && lies_under(p, e);
            let is_main = main == Some(p);
            if remove && inside {
                seq![Tidy::Remove]
            } else {
                (if held == Some(branch) && !is_main {
                    seq![Tidy::Detach]
                } else {
                    Seq::empty()
                }) + (if inside {
                    seq![Tidy::Unstage]
                } else {
                    Seq::empty()
                })
            }
        },
    }
}

/// The text in an option.
pub open spec fn text_in(s: Option<String>) -> Option<Seq<char>> {
    match s {
        Some(t) => Some(t@),
        None => None,
    }
}

/// Tells what is done to a worktree. `at`, `experiment` and `main` are the
/// canonical paths of the worktree, of the experiment and of the project, where
/// they exist.
pub fn tidy(
    remove: bool,
    branch: &str,
    wt: &WorktreeEntry,
    at: &Option<String>,
    experiment: &Option<String>,
    main: &Option<String>,
) -> (r: Vec<Tidy>)
    ensures
        r@ == tidying(
            remove,
            branch@,
            text_in(wt.branch),
            text_in(*at),
            text_in(*experiment),
            text_in(*main),
        ),
{
    let mut out: Vec<Tidy> = Vec::new();
    let p = match at {
        Some(p) => p.as_str(),
        None => {
            return out;
        },
    };
    let inside = match experiment {
        Some(e) => is_under(p, e.as_str()),
        None => false,
    };
    if remove && inside {
        out.push(Tidy::Remove);
        return out;
    }
    let is_main = match main {
        Some(m) => text::same(p, m.as_str()),
        None => false,
    };
    let holds = match &wt.branch {
        Some(b) => text::same(b.as_str(), branch),
        None => false,
    };
    if holds && !is_main {
        out.push(Tidy::Detach);
    }
    if inside {
        out.push(Tidy::Unstage);
    }
    out
}

/// Tidying touches nothing outside the experiment but a worktree that holds its
/// branch, never detaches the main worktree, and never removes a worktree
/// unless that is wanted.
pub proof fn law_tidying_is_confined(
    remove: bool,
    branch: Seq<char>,
    held: Option<Seq<char>>,
    at: Option<Seq<char>>,
    experiment: Option<Seq<char>>,
    main: Option<Seq<char>>,
)
    ensures
        ({
            let t = tidying(remove, branch, held, at, experiment, main);
            &&& t.contains(Tidy::Remove) ==> remove
            &&& t.contains(Tidy::Remove) || t.contains(Tidy::Unstage) ==> (experiment matches Some(e)
                && (at matches Some(p) && lies_under(p, e)))
            &&& t.contains(Tidy::Detach) ==> held == Some(branch) && at is Some && at != main
            &&& at is None ==> t.len() == 0
        }),
{
}

/// A worktree, and its canonical path where it exists.
#[derive(Debug)]
pub struct Found {
    pub entry: WorktreeEntry,
    pub place: Option<String>,
}

/// A step of tidying, and the git command that does it.
#[derive(Debug)]
pub struct Chore {
    pub step: Tidy,
    pub call: GitCall,
}

/// The git command for a step on a worktree.
pub open spec fn chore_command(git: Git, step: Tidy, wt: Seq<char>) -> Call {
    match step {
        Tidy::Remove => Call {
            args: seq!["worktree"@, "remove"@, "--force"@, wt],
            cwd: git.root(),
        },
        Tidy::Detach => Call { args: seq!["checkout"@, "--detach"@], cwd: wt },
        Tidy::Unstage => Call { args: seq!["reset"@], cwd: wt },
        Tidy::Prune => Call { args: seq!["worktree"@, "prune"@], cwd: git.root() },
    }
}

fn chore(git: &Git, step: Tidy, wt: &str) -> (r: Chore)
    ensures
        r.step == step,
        r.call@ == chore_command(*git, step, wt@),
{
    let call = match step {
        Tidy::Remove => git.worktree_remove_call(wt),
        Tidy::Detach => git.detach_worktree_call(wt),
        Tidy::Unstage => git.unstage_all_in_call(wt),
        Tidy::Prune => git.worktree_prune_call(),
    };
    Chore { step, call }
}

/// Steps with the git commands that do them.
pub open spec fn commands(git: Git, steps: Seq<Tidy>, wt: Seq<char>) -> Seq<(Tidy, Call)> {
    steps.map_values(|t: Tidy| (t, chore_command(git, t, wt)))
}

/// Chores with their commands as sequences.
pub open spec fn chore_list(v: Seq<Chore>) -> Seq<(Tidy, Call)> {
    v.map_values(|c: Chore| (c.step, c.call@))
}

/// What is done to worktrees, one after the other.
pub open spec fn chores_for(
    git: Git,
    remove: bool,
    branch: Seq<char>,
    found: Seq<Found>,
    experiment: Option<Seq<char>>,
    main: Option<Seq<char>>,
) -> Seq<(Tidy, Call)>
    decreases found.len(),
{
    if found.len() == 0 {
        Seq::empty()
    } else {
        let f = found.last();
        chores_for(git, remove, branch, found.drop_last(), experiment, main) + commands(
            git,
            tidying(remove, branch, text_in(f.entry.branch), text_in(f.place), experiment, main),
            f.entry.path@,
        )
    }
}

/// Tells everything that tidying an experiment does: first to each worktree,
/// and at last those that are gone are forgotten.
pub fn chores(
    git: &Git,
    remove: bool,
    branch: &str,
    found: &Vec<Found>,
    experiment: &Option<String>,
    main: &Option<String>,
) -> (r: Vec<Chore>)
    ensures
        chore_list(r@) == chores_for(
            *git,
            remove,
            branch@,
            found@,
            text_in(*experiment),
            text_in(*main),
        ).push((Tidy::Prune, Call { args: seq!["worktree"@, "prune"@], cwd: git.root() })),
{
    let mut out: Vec<Chore> = Vec::new();
    assert(chore_list(out@) =~= Seq::empty());
    assert(found@.take(0) =~= Seq::empty());
    let mut i: usize = 0;
    while i < found.len()
        invariant
            i <= found.len(),
            chore_list(out@) == chores_for(
                *git,
                remove,
                branch@,
                found@.take(i as int),
                text_in(*experiment),
                text_in(*main),
            ),
        decreases found.len() - i,
    {
        let f = &found[i];
        let steps = tidy(remove, branch, &f.entry, &f.place, experiment, main);
        let ghost before = chore_list(out@);
        let mut k: usize = 0;
        assert(commands(*git, steps@.take(0), f.entry.path@) =~= Seq::empty());
        assert(before + Seq::<(Tidy, Call)>::empty() =~= before);
        while k < steps.len()
            invariant
                k <= steps.len(),
                chore_list(out@) == before + commands(
                    *git,
                    steps@.take(k as int),
                    f.entry.path@,
                ),
            decreases steps.len() - k,
        {
            let c = chore(git, steps[k], f.entry.path.as_str());
            let ghost sofar = chore_list(out@);
            out.push(c);
            assert(chore_list(out@) =~= sofar.push((c.step, c.call@)));
            assert(commands(*git, steps@.take(k as int + 1), f.entry.path@) =~= commands(
                *git,
                steps@.take(k as int),
                f.entry.path@,
            ).push((c.step, c.call@)));
            assert(chore_list(out@) =~= before + commands(
                *git,
                steps@.take(k as int + 1),
                f.entry.path@,
            ));
            k += 1;
        }
        assert(steps@.take(steps@.len() as int) =~= steps@);
        assert(found@.take(i as int + 1).drop_last() =~= found@.take(i as int));
        i += 1;
    }
    assert(found@.take(found@.len() as int) =~= found@);
    let last = chore(git, Tidy::Prune, "");
    let ghost sofar = chore_list(out@);
    out.push(last);
    assert(chore_list(out@) =~= sofar.push((last.step, last.call@)));
    out
}

/// The error for an experiment that is not there.
pub fn not_found(name: &str, root: &str) -> (r: Error)
    ensures
        r matches Error::Config(m) && m@ == "experiment "@ + text::quoted(name@) + " not found at "@
            + text::quoted(root@),
{
    let mut m = text::owned("experiment ");
    m.push_str(text::quote(name).as_str());
    m.push_str(" not found at ");
    m.push_str(text::quote(root).as_str());
    Error::Config(m)
}

/// Tidying misses nothing: a worktree of the experiment is removed where that is
/// wanted, and else taken off the stage; one that holds the tracking branch lets
/// it go, unless it is removed or is the main one; a vanished one is let be.
pub proof fn law_tidying_is_complete(
    remove: bool,
    branch: Seq<char>,
    held: Option<Seq<char>>,
    at: Option<Seq<char>>,
    experiment: Option<Seq<char>>,
    main: Option<Seq<char>>,
)
    ensures
        ({
            let t = tidying(remove, branch, held, at, experiment, main);
            let mine = at matches Some(p) && (experiment matches Some(e) && lies_under(p, e));
            &&& t.contains(Tidy::Remove) <==> remove && mine
            &&& t.contains(Tidy::Unstage) <==> !remove && mine
            &&& t.contains(Tidy::Detach) <==> at is Some && held == Some(branch) && main != at && !(
            remove && mine)
            &&& !t.contains(Tidy::Prune)
        }),
{
    let t = tidying(remove, branch, held, at, experiment, main);
    if let Some(p) = at {
        let mine = experiment matches Some(e) && lies_under(p, e);
        if remove && mine {
            assert(t[0] == Tidy::Remove);
        } else {
            let frees = held == Some(branch) && main != Some(p);
            if frees {
                assert(t[0] == Tidy::Detach);
            }
            if mine {
                assert(t.last() == Tidy::Unstage);
            }
        }
    }
}

/// Every worktree that was found gets all that is to be done to it, by the
/// commands that do it there.
pub proof fn law_every_worktree_is_tidied(
    git: Git,
    remove: bool,
    branch: Seq<char>,
    found: Seq<Found>,
    experiment: Option<Seq<char>>,
    main: Option<Seq<char>>,
    k: int,
    step: Tidy,
)
    requires
        0 <= k < found.len(),
        tidying(
            remove,
            branch,
            text_in(found[k].entry.branch),
            text_in(found[k].place),
            experiment,
            main,
        ).contains(step),
    ensures
        chores_for(git, remove, branch, found, experiment, main).contains(
            (
                step,
                match step {
                    Tidy::Remove => Call {
                        args: seq!["worktree"@, "remove"@, "--force"@, found[k].entry.path@],
                        cwd: git.root(),
                    },
                    Tidy::Detach => Call {
                        args: seq!["checkout"@, "--detach"@],
                        cwd: found[k].entry.path@,
                    },
                    Tidy::Unstage => Call { args: seq!["reset"@], cwd: found[k].entry.path@ },
                    Tidy::Prune => Call { args: seq!["worktree"@, "prune"@], cwd: git.root() },
                },
            ),
        ),
    decreases found.len(),
{
    let all = chores_for(git, remove, branch, found, experiment, main);
    let init = chores_for(git, remove, branch, found.drop_last(), experiment, main);
    let f = found.last();
    let steps = tidying(remove, branch, text_in(f.entry.branch), text_in(f.place), experiment, main);
    let want = (step, chore_command(git, step, found[k].entry.path@));
    if k == found.len() - 1 {
        let j = choose|j: int| 0 <= j < steps.len() && steps[j] == step;
        assert(commands(git, steps, f.entry.path@)[j] == want);
        assert(all[init.len() + j] == want);
    } else {
        law_every_worktree_is_tidied(
            git,
            remove,
            branch,
            found.drop_last(),
            experiment,
            main,
            k,
            step,
        );
        let j = choose|j: int| 0 <= j < init.len() && init[j] == want;
        assert(all[j] == want);
    }
}

/// What lies below a directory is under it, and the directory itself is; what
/// only begins with the same letters is not.
pub proof fn law_under_means_below(dir: Seq<char>, rest: Seq<char>)
    requires
        dir.len() > 0 && dir.last() != '/',
    ensures
        lies_under(dir, dir),
        lies_under(dir + seq!['/'] + rest, dir),
        rest.len() > 0 && rest[0] != '/' ==> !lies_under(dir + rest, dir),
{
    let p = dir + seq!['/'] + rest;
    assert(p.take(dir.len() as int + 1) == dir.push('/'));
    let q = dir + rest;
    if rest.len() > 0 && rest[0] != '/' {
        if text::begins_with(q, dir.push('/')) {
            assert(q.take(dir.len() as int + 1)[dir.len() as int] == '/');
        }
        assert(q.len() != dir.len());
    }
}

} // verus!
