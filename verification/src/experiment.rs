//! Where an experiment keeps its files.
use vstd::prelude::*;

use crate::text;

verus! {

/// `part` below `base`: an absolute part stands alone, any other follows the
/// base behind one separator.
pub open spec fn path_joined(base: Seq<char>, part: Seq<char>) -> Seq<char> {
    if part.len() > 0 && part[0] == '/' {
        part
    } else if base.len() > 0 && base.last() != '/' {
        base.push('/') + part
    } else {
        base + part
    }
}

/// `part` below `base`.
pub fn path_join(base: &str, part: &str) -> (r: String)
    ensures
        r@ == path_joined(base@, part@),
{
    let b = text::chars_of(base);
    let p = text::chars_of(part);
    if p.len() > 0 && p[0] == '/' {
        return text::owned(part);
    }
    let mut out = text::owned(base);
    if b.len() > 0 && b[b.len() - 1] != '/' {
        out.push('/');
    }
    out.push_str(part);
    out
}

/// The directory that holds all experiments of a project.
pub const HOME: &'static str = ".autorize";

/// The paths of one experiment.
#[derive(Debug, Clone)]
pub struct ExperimentPaths {
    project_root: String,
    name: String,
}

impl ExperimentPaths {
    /// The project's directory.
    pub closed spec fn project(self) -> Seq<char> {
        self.project_root@
    }

    /// The experiment's name.
    pub closed spec fn title(self) -> Seq<char> {
        self.name@
    }

    /// The experiment's directory.
    pub open spec fn home(self) -> Seq<char> {
        path_joined(path_joined(self.project(), HOME@), self.title())
    }

    /// A file or directory of the experiment.
    pub open spec fn inside(self, part: Seq<char>) -> Seq<char> {
        path_joined(self.home(), part)
    }

    /// The paths of the experiment `name` of the project at `project_root`.
    pub fn new(project_root: String, name: String) -> (r: Self)
        ensures
            r.project() == project_root@,
            r.title() == name@,
    {
        Self { project_root, name }
    }

    /// The experiment's name.
    pub fn name(&self) -> (r: &str)
        ensures
            r@ == self.title(),
    {
        self.name.as_str()
    }

    /// The project's directory.
    pub fn project_root(&self) -> (r: &str)
        ensures
            r@ == self.project(),
    {
        self.project_root.as_str()
    }

    /// The experiment's directory.
    pub fn root(&self) -> (r: String)
        ensures
            r@ == self.home(),
    {
        path_join(path_join(self.project_root.as_str(), HOME).as_str(), self.name.as_str())
    }

    /// The configuration file.
    pub fn config_path(&self) -> (r: String)
        ensures
            r@ == self.inside("config.toml"@),
    {
        path_join(self.root().as_str(), "config.toml")
    }

    /// The agent's instructions.
    pub fn program_path(&self) -> (r: String)
        ensures
            r@ == self.inside("program.md"@),
    {
        path_join(self.root().as_str(), "program.md")
    }

    /// The log of finished iterations.
    pub fn iterations_log(&self) -> (r: String)
        ensures
            r@ == self.inside("iterations.jsonl"@),
    {
        path_join(self.root().as_str(), "iterations.jsonl")
    }

    /// The operator's guidance.
    pub fn guidance_path(&self) -> (r: String)
        ensures
            r@ == self.inside("guidance.jsonl"@),
    {
        path_join(self.root().as_str(), "guidance.jsonl")
    }

    /// The checkpoint of the loop.
    pub fn state_path(&self) -> (r: String)
        ensures
            r@ == self.inside("state.json"@),
    {
        path_join(self.root().as_str(), "state.json")
    }

    /// The lock of the running loop.
    pub fn lock_path(&self) -> (r: String)
        ensures
            r@ == self.inside("run.lock"@),
    {
        path_join(self.root().as_str(), "run.lock")
    }

    /// The directory of one iteration.
    pub open spec fn attempt_dir(self, iter: u64) -> Seq<char> {
        self.inside("iter-"@ + text::right_aligned(text::dec(iter as nat), 4, '0'))
    }

    /// The directory of one iteration.
    pub fn iter_dir(&self, iter: u64) -> (r: String)
        ensures
            r@ == self.attempt_dir(iter),
    {
        let mut part = text::owned("iter-");
        part.push_str(text::align_right(text::dec_string(iter).as_str(), 4, '0').as_str());
        path_join(self.root().as_str(), part.as_str())
    }
}

proof fn lemma_join_injective(base: Seq<char>, a: Seq<char>, b: Seq<char>)
    requires
        a.len() > 0 && a[0] != '/',
        b.len() > 0 && b[0] != '/',
        path_joined(base, a) == path_joined(base, b),
    ensures
        a == b,
{
    let head = if base.len() > 0 && base.last() != '/' {
        base.push('/')
    } else {
        base
    };
    assert(path_joined(base, a).skip(head.len() as int) == a);
    assert(path_joined(base, b).skip(head.len() as int) == b);
}

/// No two iterations share a directory.
pub proof fn law_iterations_have_own_dirs(paths: ExperimentPaths, a: u64, b: u64)
    requires
        paths.attempt_dir(a) == paths.attempt_dir(b),
    ensures
        a == b,
{
    reveal_strlit("iter-");
    let x = text::dec(a as nat);
    let y = text::dec(b as nat);
    let px = text::right_aligned(x, 4, '0');
    let py = text::right_aligned(y, 4, '0');
    lemma_join_injective(paths.home(), "iter-"@ + px, "iter-"@ + py);
    assert(("iter-"@ + px).skip(5) == px);
    assert(("iter-"@ + py).skip(5) == py);
    text::lemma_leading_zeros(text::missing(x, 4), x);
    text::lemma_leading_zeros(text::missing(y, 4), y);
    text::law_dec_reads_back(a as nat);
    text::law_dec_reads_back(b as nat);
}

/// An experiment with a valid name has its directory below the project's own
/// directory for experiments, one level deep.
pub proof fn law_home_is_below_project(paths: ExperimentPaths)
    requires
        crate::config::valid_name(paths.title()),
    ensures
        paths.home() == path_joined(paths.project(), HOME@).push('/') + paths.title(),
        !paths.title().contains('/'),
        text::begins_with(paths.home(), paths.project()),
{
    reveal_strlit(".autorize");
    let base = path_joined(paths.project(), HOME@);
    assert(crate::config::is_name_char(paths.title()[0]));
    assert(base.last() == 'e');
    assert(!paths.title().contains('/')) by {
        if paths.title().contains('/') {
            let k = choose|k: int| 0 <= k < paths.title().len() && paths.title()[k] == '/';
            assert(crate::config::is_name_char(paths.title()[k]));
        }
    }
    assert(paths.home().take(paths.project().len() as int) =~= paths.project());
}

/// A file of an experiment is in its directory, and what belongs to an iteration
/// is in a directory there that bears its number.
pub proof fn law_iteration_dir_bears_its_number(paths: ExperimentPaths, iter: u64)
    requires
        crate::config::valid_name(paths.title()),
    ensures
        paths.home() == path_joined(paths.project(), ".autorize"@) + "/"@ + paths.title(),
        paths.attempt_dir(iter) == paths.home() + "/iter-"@ + text::right_aligned(
            text::dec(iter as nat),
            4,
            '0',
        ),
        text::finishes_with(paths.attempt_dir(iter), text::dec(iter as nat)),
        iter < 10_000 ==> paths.attempt_dir(iter).len() == paths.home().len() + 10,
{
    reveal_strlit(".autorize");
    reveal_strlit("iter-");
    reveal_strlit("/iter-");
    reveal_strlit("/");
    law_home_is_below_project(paths);
    let base = path_joined(paths.project(), HOME@);
    let d = text::dec(iter as nat);
    let padded = text::right_aligned(d, 4, '0');
    let name = paths.title();
    assert(base.push('/') + name =~= base + "/"@ + name);
    assert(crate::config::is_name_char(name[name.len() - 1]));
    assert(paths.home().last() == name.last());
    let dir = paths.attempt_dir(iter);
    assert(dir =~= paths.home() + "/iter-"@ + padded);
    text::law_alignment_keeps_the_text(d, 4, '0');
    assert(dir.skip(dir.len() - d.len()) =~= padded.skip(padded.len() - d.len()));
    if iter < 10_000 {
        lemma_short_number(iter as nat);
    }
}

proof fn lemma_short_number(n: nat)
    requires
        n < 10_000,
    ensures
        text::dec(n).len() <= 4,
{
    reveal_with_fuel(text::dec, 5);
}

/// A part that is no absolute path stands below the base, behind one separator.
pub proof fn law_parts_are_joined_by_one_separator(base: Seq<char>, part: Seq<char>)
    requires
        base.len() > 0,
        part.len() > 0 && part[0] != '/',
    ensures
        base.last() != '/' ==> path_joined(base, part) == base + seq!['/'] + part,
        base.last() == '/' ==> path_joined(base, part) == base + part,
        path_joined(base, seq!['/'] + part) == seq!['/'] + part,
{
    assert(base.push('/') == base + seq!['/']);
}

} // verus!
