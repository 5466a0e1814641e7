//! Starting an agent: its command, its environment, its input.
use vstd::prelude::*;

use crate::config::{AgentStdin, PROMPT_FILE};
use crate::env_map::EnvMap;
use crate::subproc::{self, CommandOutput, Invocation, Launch};
use crate::text;
use crate::time::Duration;

verus! {

/// An agent to be started for one iteration.
pub struct AgentSpec<'a> {
    pub command_template: &'a str,
    pub prompt_file: &'a str,
    pub workdir: &'a str,
    pub iter: u64,
    pub budget: Duration,
    pub workdir_var: &'a str,
    pub env: &'a EnvMap,
    pub stdin: AgentStdin,
}

/// What an agent left.
#[derive(Debug)]
pub struct AgentOutput {
    pub exit_code: Option<i32>,
    pub killed_by_budget: bool,
    pub stdout: String,
    pub stderr: String,
}

/// A command template with its placeholders filled in, one after the other.
pub open spec fn substituted(
    tmpl: Seq<char>,
    prompt: Seq<char>,
    workdir: Seq<char>,
    iter: nat,
) -> Seq<char> {
    text::replaced(
        text::replaced(text::replaced(tmpl, PROMPT_FILE@, prompt), "{workdir}"@, workdir),
        "{iter}"@,
        text::dec(iter),
    )
}

/// Fills in the placeholders of a command template.
pub fn substitute(tmpl: &str, prompt: &str, workdir: &str, iter: u64) -> (r: String)
    ensures
        r@ == substituted(tmpl@, prompt@, workdir@, iter as nat),
{
    proof {
        reveal_strlit("{prompt_file}");
        reveal_strlit("{workdir}");
        reveal_strlit("{iter}");
    }
    let with_prompt = text::replace(tmpl, PROMPT_FILE, prompt);
    let with_workdir = text::replace(with_prompt.as_str(), "{workdir}", workdir);
    text::replace(with_workdir.as_str(), "{iter}", text::dec_string(iter).as_str())
}

/// A character that a variable's name can begin with.
pub open spec fn begins_name(c: char) -> bool {
    text::is_letter(c) || c == '_'
}

/// A character that a variable's name can go on with.
pub open spec fn continues_name(c: char) -> bool {
    begins_name(c) || text::is_digit(c)
}

/// How many characters at the start of `s` can go on a variable's name.
pub open spec fn name_run(s: Seq<char>) -> nat
    decreases s.len(),
{
    if s.len() > 0 && continues_name(s[0]) {
        1 + name_run(s.drop_first())
    } else {
        0
    }
}

/// A variable's name.
pub open spec fn is_var_name(s: Seq<char>) -> bool {
    s.len() > 0 && begins_name(s[0]) && name_run(s) == s.len()
}

/// The reference that a text beginning with `$` begins with: the name it refers
/// to and the number of characters it takes.
pub open spec fn reference(s: Seq<char>) -> Option<(Seq<char>, nat)> {
    if s.len() > 1 && s[1] == '{' {
        let end = text::find_char(s.skip(2), '}');
        if end < s.len() - 2 && is_var_name(s.subrange(2, 2 + end)) {
            Some((s.subrange(2, 2 + end), (3 + end) as nat))
        } else {
            None
        }
    } else if s.len() > 1 && begins_name(s[1]) {
        let n = name_run(s.skip(1));
        Some((s.subrange(1, 1 + n as int), 1 + n))
    } else {
        None
    }
}

/// The value of a variable, empty where it is not set.
pub open spec fn value_of(vars: Map<Seq<char>, Seq<char>>, name: Seq<char>) -> Seq<char> {
    if vars.dom().contains(name) {
        vars[name]
    } else {
        Seq::empty()
    }
}

/// A text with the references `$NAME` and `${NAME}` replaced by what the
/// variables hold. A `$` that begins no reference stays.
pub open spec fn expanded(s: Seq<char>, vars: Map<Seq<char>, Seq<char>>) -> Seq<char>
    decreases s.len(),
{
    if s.len() == 0 {
        Seq::empty()
    } else if s[0] != '$' {
        seq![s[0]] + expanded(s.drop_first(), vars)
    } else {
        match reference(s) {
            Some((name, used)) => if 0 < used <= s.len() {
                value_of(vars, name) + expanded(s.skip(used as int), vars)
            } else {
                Seq::empty()
            },
            None => seq!['$'] + expanded(s.drop_first(), vars),
        }
    }
}

proof fn lemma_name_run_bounds(s: Seq<char>)
    ensures
        name_run(s) <= s.len(),
        forall|i: int| 0 <= i < name_run(s) ==> continues_name(#[trigger] s[i]),
        name_run(s) < s.len() ==> !continues_name(s[name_run(s) as int]),
    decreases s.len(),
{
    if s.len() > 0 && continues_name(s[0]) {
        let rest = s.drop_first();
        lemma_name_run_bounds(rest);
        assert forall|i: int| 0 <= i < name_run(s) implies continues_name(#[trigger] s[i]) by {
            if i > 0 {
                assert(rest[i - 1] == s[i]);
            }
        }
    }
}

proof fn lemma_name_run_is(s: Seq<char>, n: nat)
    requires
        n <= s.len(),
        forall|i: int| 0 <= i < n ==> continues_name(#[trigger] s[i]),
        n < s.len() ==> !continues_name(s[n as int]),
    ensures
        name_run(s) == n,
{
    lemma_name_run_bounds(s);
    if name_run(s) < n {
        assert(continues_name(s[name_run(s) as int]));
    }
}

proof fn lemma_reference_fits(s: Seq<char>)
    ensures
        reference(s) matches Some((name, used)) ==> 1 < used <= s.len(),
{
    if s.len() > 1 && s[1] != '{' && begins_name(s[1]) {
        lemma_name_run_bounds(s.skip(1));
        assert(s.skip(1)[0] == s[1]);
    }
    if s.len() > 1 && s[1] == '{' {
        text::lemma_find_bounds(s.skip(2), '}');
    }
}

fn char_begins_name(c: char) -> (r: bool)
    ensures
        r == begins_name(c),
{
    text::char_is_letter(c) || c == '_'
}

fn char_continues_name(c: char) -> (r: bool)
    ensures
        r == continues_name(c),
{
    char_begins_name(c) || text::char_is_digit(c)
}

/// Where the characters that can go on a name end, from `from` on.
fn name_end(v: &Vec<char>, from: usize) -> (r: usize)
    requires
        from <= v.len(),
    ensures
        from <= r <= v.len(),
        r - from == name_run(v@.skip(from as int)),
{
    let mut i: usize = from;
    let ghost rest = v@.skip(from as int);
    while i < v.len() && char_continues_name(v[i])
        invariant
            from <= i <= v.len(),
            rest == v@.skip(from as int),
            forall|j: int| 0 <= j < i - from ==> continues_name(#[trigger] rest[j]),
        decreases v.len() - i,
    {
        assert(rest[i - from] == v@[i as int]);
        i += 1;
    }
    proof {
        if i < v.len() {
            assert(rest[i - from] == v@[i as int]);
        }
        lemma_name_run_is(rest, (i - from) as nat);
    }
    i
}

/// Tells whether a text is a variable's name.
pub fn is_valid_name(s: &str) -> (r: bool)
    ensures
        r == is_var_name(s@),
{
    let v = text::chars_of(s);
    assert(v@.skip(0) == v@);
    v.len() > 0 && char_begins_name(v[0]) && name_end(&v, 0) == v.len()
}

fn lookup(vars: &EnvMap, name: &str) -> (r: String)
    ensures
        r@ == value_of(vars@, name@),
{
    match vars.get(name) {
        Some(v) => text::owned(v),
        None => String::new(),
    }
}

/// The reference at a `$`: the name and where the text goes on behind it.
fn reference_at(v: &Vec<char>, at: usize) -> (r: Option<(String, usize)>)
    requires
        at < v.len(),
    ensures
        match (r, reference(v@.skip(at as int))) {
            (Some((name, next)), Some((n, used))) => name@ == n && next == at + used,
            (None, None) => true,
            _ => false,
        },
{
    let ghost s = v@.skip(at as int);
    proof {
        lemma_reference_fits(s);
    }
    let from: usize = at + 1;
    if from >= v.len() {
        return None;
    }
    assert(s[1] == v@[from as int]);
    if v[from] == '{' {
        let inner: usize = from + 1;
        let end = text::index_of(v, inner, '}');
        proof {
            assert(s.skip(2) == v@.skip(inner as int));
        }
        if end >= v.len() {
            return None;
        }
        let name = text::slice_string(v, inner, end);
        assert(name@ == s.subrange(2, 2 + (end - inner)));
        if is_valid_name(name.as_str()) {
            return Some((name, end + 1));
        }
        return None;
    }
    if char_begins_name(v[from]) {
        let end = name_end(v, from);
        assert(s.skip(1) == v@.skip(from as int));
        let name = text::slice_string(v, from, end);
        assert(name@ == s.subrange(1, 1 + (end - from)));
        return Some((name, end));
    }
    None
}

/// Replaces the references in a text by what the variables hold.
pub fn expand_one(s: &str, vars: &EnvMap) -> (r: String)
    ensures
        r@ == expanded(s@, vars@),
{
    let v = text::chars_of(s);
    let mut out = String::new();
    let mut i: usize = 0;
    assert(v@.skip(0) == v@);
    while i < v.len()
        invariant
            i <= v.len(),
            v@ == s@,
            expanded(s@, vars@) == out@ + expanded(v@.skip(i as int), vars@),
        decreases v.len() - i,
    {
        let ghost rest = v@.skip(i as int);
        let ghost before = out@;
        assert(rest[0] == v@[i as int]);
        assert(rest.drop_first() == v@.skip(i as int + 1));
        proof {
            lemma_reference_fits(rest);
        }
        if v[i] != '$' {
            out.push(v[i]);
            i += 1;
            assert(out@ + expanded(v@.skip(i as int), vars@) == before + expanded(rest, vars@));
        } else {
            match reference_at(&v, i) {
                Some((name, next)) => {
                    out.push_str(lookup(vars, name.as_str()).as_str());
                    assert(rest.skip(next - i) == v@.skip(next as int));
                    i = next;
                    assert(out@ + expanded(v@.skip(i as int), vars@) == before + expanded(
                        rest,
                        vars@,
                    ));
                },
                None => {
                    out.push('$');
                    i += 1;
                    assert(out@ + expanded(v@.skip(i as int), vars@) == before + expanded(
                        rest,
                        vars@,
                    ));
                },
            }
        }
    }
    assert(v@.skip(v@.len() as int) == Seq::<char>::empty());
    assert(out@ + Seq::<char>::empty() == out@);
    out
}

/// The same names, each with its value expanded.
pub open spec fn expanded_map(
    env: Map<Seq<char>, Seq<char>>,
    vars: Map<Seq<char>, Seq<char>>,
) -> Map<Seq<char>, Seq<char>> {
    env.map_values(|v: Seq<char>| expanded(v, vars))
}

/// Replaces the references in every value of an environment by what the
/// variables of the parent hold.
pub fn expand_env(env: &EnvMap, vars: &EnvMap) -> (r: EnvMap)
    ensures
        r@ == expanded_map(env@, vars@),
{
    let mut out = EnvMap::new();
    let mut i: usize = 0;
    let ghost listed = env.listed();
    proof {
        env.lemma_listed();
        assert(crate::env_map::bindings(listed.take(0)) == Map::<Seq<char>, Seq<char>>::empty());
        assert(out@ =~= expanded_map(crate::env_map::bindings(listed.take(0)), vars@));
    }
    while i < env.len()
        invariant
            i <= listed.len(),
            listed == env.listed(),
            out@ == expanded_map(crate::env_map::bindings(listed.take(i as int)), vars@),
        decreases listed.len() - i,
    {
        let value = expand_one(env.value(i), vars);
        let name = text::owned(env.name(i));
        let ghost next = listed.take(i as int + 1);
        assert(next.drop_last() == listed.take(i as int));
        assert(next.last() == listed[i as int]);
        out.insert(name, value);
        assert(out@ =~= expanded_map(crate::env_map::bindings(next), vars@));
        i += 1;
    }
    assert(listed.take(listed.len() as int) == listed);
    out
}

/// The launch of an agent. `vars` is the environment of the harness.
pub open spec fn agent_launch(spec: AgentSpec, vars: Map<Seq<char>, Seq<char>>) -> Launch {
    subproc::shell_launch(
        substituted(spec.command_template@, spec.prompt_file@, spec.workdir@, spec.iter as nat),
        spec.workdir@,
        spec.budget,
        expanded_map(spec.env@, vars).insert(spec.workdir_var@, spec.workdir@),
        match spec.stdin {
            AgentStdin::Nothing => None,
            AgentStdin::Prompt => Some(spec.prompt_file@),
        },
    )
}

/// The child that runs an agent.
pub fn agent_invocation(spec: &AgentSpec, vars: &EnvMap) -> (r: Invocation)
    ensures
        r@ == agent_launch(*spec, vars@),
{
    let command = substitute(spec.command_template, spec.prompt_file, spec.workdir, spec.iter);
    let mut env = expand_env(spec.env, vars);
    env.insert(text::owned(spec.workdir_var), text::owned(spec.workdir));
    let stdin_file = match spec.stdin {
        AgentStdin::Nothing => None,
        AgentStdin::Prompt => Some(spec.prompt_file),
    };
    subproc::shell_invocation(command.as_str(), spec.workdir, spec.budget, env, stdin_file)
}

/// What the agent left, read off its process.
pub fn agent_output(out: CommandOutput) -> (r: AgentOutput)
    ensures
        r.exit_code == out.exit_code,
        r.killed_by_budget == out.timed_out,
        r.stdout == out.stdout,
        r.stderr == out.stderr,
{
    AgentOutput {
        exit_code: out.exit_code,
        killed_by_budget: out.timed_out,
        stdout: out.stdout,
        stderr: out.stderr,
    }
}

/// A text without `$` is left as it is, whatever the variables hold.
pub proof fn law_plain_text_is_kept(s: Seq<char>, vars: Map<Seq<char>, Seq<char>>)
    requires
        !s.contains('$'),
    ensures
        expanded(s, vars) == s,
    decreases s.len(),
{
    if s.len() > 0 {
        assert(s.contains(s[0]));
        let rest = s.drop_first();
        assert(!rest.contains('$')) by {
            if rest.contains('$') {
                let i = choose|i: int| 0 <= i < rest.len() && rest[i] == '$';
                assert(s[i + 1] == '$');
            }
        }
        law_plain_text_is_kept(rest, vars);
        assert(seq![s[0]] + rest == s);
    }
}

/// A `$` that a non-name character follows is kept.
pub proof fn law_bare_dollar_is_kept(s: Seq<char>, vars: Map<Seq<char>, Seq<char>>)
    requires
        s.len() > 0,
        s[0] == '$',
        s.len() > 1 ==> s[1] != '{' && !begins_name(s[1]),
    ensures
        expanded(s, vars) == seq!['$'] + expanded(s.drop_first(), vars),
{
}

/// A name in braces stands for the variable's value, empty where it is not set.
pub proof fn law_braced_name_is_expanded(
    name: Seq<char>,
    rest: Seq<char>,
    vars: Map<Seq<char>, Seq<char>>,
)
    requires
        is_var_name(name),
    ensures
        expanded(seq!['$', '{'] + name + seq!['}'] + rest, vars) == value_of(vars, name) + expanded(
            rest,
            vars,
        ),
{
    let s = seq!['$', '{'] + name + seq!['}'] + rest;
    lemma_name_run_bounds(name);
    assert(!name.contains('}')) by {
        if name.contains('}') {
            let k = choose|k: int| 0 <= k < name.len() && name[k] == '}';
            assert(continues_name(name[k]));
        }
    }
    text::lemma_find_first(name, seq!['}'] + rest, '}');
    assert(s.skip(2) == name + (seq!['}'] + rest));
    assert(s.subrange(2, 2 + name.len() as int) == name);
    assert(s.skip(3 + name.len() as int) == rest);
}

/// A name behind a `$` stands for the variable's value, empty where it is not
/// set. The name goes as far as its characters do.
pub proof fn law_bare_name_is_expanded(
    name: Seq<char>,
    rest: Seq<char>,
    vars: Map<Seq<char>, Seq<char>>,
)
    requires
        name.len() > 0 && begins_name(name[0]),
        forall|k: int| 0 <= k < name.len() ==> continues_name(#[trigger] name[k]),
        rest.len() > 0 ==> !continues_name(rest[0]),
    ensures
        expanded(seq!['$'] + name + rest, vars) == (if vars.dom().contains(name) {
            vars[name]
        } else {
            Seq::empty()
        }) + expanded(rest, vars),
{
    let s = seq!['$'] + name + rest;
    let t = name + rest;
    assert(s.skip(1) == t);
    assert(s[1] == name[0]);
    assert forall|k: int| 0 <= k < name.len() implies continues_name(#[trigger] t[k]) by {
        assert(t[k] == name[k]);
    }
    if rest.len() > 0 {
        assert(t[name.len() as int] == rest[0]);
    }
    lemma_name_run_is(t, name.len());
    assert(s.subrange(1, 1 + name.len() as int) == name);
    assert(s.skip(1 + name.len() as int) == rest);
}

/// What stands before a `$` stays.
pub proof fn law_text_before_a_reference_is_kept(
    plain: Seq<char>,
    rest: Seq<char>,
    vars: Map<Seq<char>, Seq<char>>,
)
    requires
        !plain.contains('$'),
    ensures
        expanded(plain + rest, vars) == plain + expanded(rest, vars),
    decreases plain.len(),
{
    let s = plain + rest;
    if plain.len() > 0 {
        let more = plain.drop_first();
        assert(plain.contains(plain[0]));
        assert(!more.contains('$')) by {
            if more.contains('$') {
                let i = choose|i: int| 0 <= i < more.len() && more[i] == '$';
                assert(plain[i + 1] == '$');
            }
        }
        law_text_before_a_reference_is_kept(more, rest, vars);
        assert(s.drop_first() == more + rest);
        assert(seq![plain[0]] + (more + expanded(rest, vars)) == plain + expanded(rest, vars));
    } else {
        assert(s == rest);
        assert(plain + expanded(rest, vars) == expanded(rest, vars));
    }
}

proof fn lemma_no_brace(x: Seq<char>, k: int)
    requires
        !x.contains('{'),
        0 <= k < x.len(),
    ensures
        x[k] != '{',
{
}

proof fn lemma_brace_begins(s: Seq<char>, k: int, p: Seq<char>)
    requires
        0 <= k < s.len(),
        p.len() > 1,
        p[0] == '{',
        s[k] != '{' || (k + 1 < s.len() && s[k + 1] != p[1]),
    ensures
        !text::begins_with(s.skip(k), p),
{
    if text::begins_with(s.skip(k), p) {
        assert(s.skip(k).take(p.len() as int)[0] == p[0]);
        assert(s.skip(k).take(p.len() as int)[1] == p[1]);
        assert(s.skip(k)[0] == s[k]);
        assert(s.skip(k)[1] == s[k + 1]);
    }
}

/// Text without a brace before a placeholder of another kind, and that
/// placeholder, are passed over.
proof fn lemma_passes(x: Seq<char>, q: Seq<char>, b: Seq<char>, p: Seq<char>, by: Seq<char>)
    requires
        !x.contains('{'),
        q.len() > 1 && q[0] == '{' && !q.drop_first().contains('{'),
        p.len() > 1 && p[0] == '{' && p[1] != q[1],
    ensures
        text::replaced(x + q + b, p, by) == x + q + text::replaced(b, p, by),
{
    let y = x + q;
    assert forall|k: int| 0 <= k < y.len() implies !text::begins_with(
        #[trigger] (y + b).skip(k),
        p,
    ) by {
        if k < x.len() {
            lemma_no_brace(x, k);
        } else if k > x.len() {
            assert(q.drop_first()[k - x.len() - 1] == y[k]);
            lemma_no_brace(q.drop_first(), k - x.len() - 1);
        } else {
            assert((y + b)[k + 1] == q[1]);
        }
        assert((y + b)[k] == y[k]);
        lemma_brace_begins(y + b, k, p);
    }
    text::lemma_replace_passes(y, b, p, by);
}

proof fn lemma_fills(x: Seq<char>, p: Seq<char>, b: Seq<char>, by: Seq<char>)
    requires
        !x.contains('{'),
        p.len() > 1 && p[0] == '{',
    ensures
        text::replaced(x + p + b, p, by) == x + by + text::replaced(b, p, by),
{
    let s = x + p + b;
    assert forall|k: int| 0 <= k < x.len() implies !text::begins_with(#[trigger] s.skip(k), p) by {
        lemma_no_brace(x, k);
        assert(s[k] == x[k]);
        lemma_brace_begins(s, k, p);
    }
    text::law_replace_first(x, p, b, by);
}

proof fn lemma_stays(x: Seq<char>, p: Seq<char>, by: Seq<char>)
    requires
        !x.contains('{'),
        p.len() > 1 && p[0] == '{',
    ensures
        text::replaced(x, p, by) == x,
{
    assert forall|k: int| 0 <= k <= x.len() implies !text::begins_with(#[trigger] x.skip(k), p) by {
        if k < x.len() {
            lemma_no_brace(x, k);
            lemma_brace_begins(x, k, p);
        }
    }
    text::law_replace_absent(x, p, by);
}

proof fn lemma_no_brace_joined(a: Seq<char>, b: Seq<char>)
    requires
        !a.contains('{'),
        !b.contains('{'),
    ensures
        !(a + b).contains('{'),
{
    let s = a + b;
    if s.contains('{') {
        let k = choose|k: int| 0 <= k < s.len() && s[k] == '{';
        if k < a.len() {
            assert(a[k] == '{');
        } else {
            assert(b[k - a.len()] == '{');
        }
    }
}

/// In a command template the three placeholders give way to what they stand for,
/// each to its own, and what is between them stays.
pub proof fn law_placeholders_are_filled_in(
    a: Seq<char>,
    b: Seq<char>,
    c: Seq<char>,
    d: Seq<char>,
    prompt: Seq<char>,
    workdir: Seq<char>,
    iter: nat,
)
    requires
        !a.contains('{') && !b.contains('{') && !c.contains('{') && !d.contains('{'),
        !prompt.contains('{') && !workdir.contains('{'),
    ensures
        substituted(
            a + "{prompt_file}"@ + (b + "{workdir}"@ + (c + "{iter}"@ + d)),
            prompt,
            workdir,
            iter,
        ) == a + prompt + b + workdir + c + text::dec(iter) + d,
{
    reveal_strlit("{prompt_file}");
    reveal_strlit("{workdir}");
    reveal_strlit("{iter}");
    let p = "{prompt_file}"@;
    let w = "{workdir}"@;
    let i = "{iter}"@;
    let n = text::dec(iter);
    assert(!w.drop_first().contains('{'));
    assert(!i.drop_first().contains('{'));
    let rest = b + w + (c + i + d);
    lemma_fills(a, p, rest, prompt);
    lemma_passes(b, w, c + i + d, p, prompt);
    lemma_passes(c, i, d, p, prompt);
    lemma_stays(d, p, prompt);
    let s1 = a + prompt + (b + w + (c + i + d));
    assert(text::replaced(a + p + rest, p, prompt) == s1);
    let ab = a + prompt + b;
    lemma_no_brace_joined(a, prompt);
    lemma_no_brace_joined(a + prompt, b);
    assert(s1 == ab + w + (c + i + d));
    lemma_fills(ab, w, c + i + d, workdir);
    lemma_passes(c, i, d, w, workdir);
    lemma_stays(d, w, workdir);
    let s2 = ab + workdir + (c + i + d);
    let abc = ab + workdir + c;
    lemma_no_brace_joined(ab, workdir);
    lemma_no_brace_joined(ab + workdir, c);
    assert(s2 == abc + i + d);
    lemma_fills(abc, i, d, n);
    lemma_stays(d, i, n);
}

/// An agent is started in its directory, within its time, with its command. Its
/// variables are those given to it, expanded, and the one that names its
/// directory, which nothing given to it can hide.
pub proof fn law_agent_is_started_as_asked(
    spec: AgentSpec,
    vars: Map<Seq<char>, Seq<char>>,
    name: Seq<char>,
)
    ensures
        agent_launch(spec, vars).program == "bash"@,
        agent_launch(spec, vars).args == seq![
            "-lc"@,
            substituted(spec.command_template@, spec.prompt_file@, spec.workdir@, spec.iter as nat),
        ],
        agent_launch(spec, vars).workdir == spec.workdir@,
        agent_launch(spec, vars).budget == spec.budget,
        agent_launch(spec, vars).env.dom().contains(name) <==> name == spec.workdir_var@
            || spec.env@.dom().contains(name),
        agent_launch(spec, vars).env[spec.workdir_var@] == spec.workdir@,
        name != spec.workdir_var@ && spec.env@.dom().contains(name) ==> agent_launch(
            spec,
            vars,
        ).env[name] == expanded(spec.env@[name], vars),
        spec.stdin == AgentStdin::Prompt ==> agent_launch(spec, vars).stdin_file == Some(
            spec.prompt_file@,
        ),
        spec.stdin == AgentStdin::Nothing ==> agent_launch(spec, vars).stdin_file is None,
{
}

/// Braces round what is no name make no reference: the `$` stays, and so does
/// what follows it.
pub proof fn law_braced_other_is_kept(
    inner: Seq<char>,
    rest: Seq<char>,
    vars: Map<Seq<char>, Seq<char>>,
)
    requires
        !inner.contains('}'),
        !is_var_name(inner),
    ensures
        expanded(seq!['$', '{'] + inner + seq!['}'] + rest, vars) == seq!['$'] + expanded(
            seq!['{'] + inner + seq!['}'] + rest,
            vars,
        ),
{
    let s = seq!['$', '{'] + inner + seq!['}'] + rest;
    text::lemma_find_first(inner, seq!['}'] + rest, '}');
    assert(s.skip(2) == inner + (seq!['}'] + rest));
    assert(s.subrange(2, 2 + inner.len() as int) == inner);
    assert(s.drop_first() == seq!['{'] + inner + seq!['}'] + rest);
}

/// A variable's name begins with a letter or an underscore and goes on with
/// these or with digits.
pub proof fn law_names_are_words(name: Seq<char>)
    ensures
        is_var_name(name) <==> name.len() > 0 && !('0' <= name[0] <= '9') && forall|k: int|
            0 <= k < name.len() ==> {
                let c = #[trigger] name[k];
                ('a' <= c <= 'z') || ('A' <= c <= 'Z') || ('0' <= c <= '9') || c == '_'
            },
{
    lemma_name_run_bounds(name);
    if name.len() > 0 {
        if is_var_name(name) {
            assert forall|k: int| 0 <= k < name.len() implies {
                let c = #[trigger] name[k];
                ('a' <= c <= 'z') || ('A' <= c <= 'Z') || ('0' <= c <= '9') || c == '_'
            } by {
                assert(continues_name(name[k]));
            }
        } else if forall|k: int|
            0 <= k < name.len() ==> {
                let c = #[trigger] name[k];
                ('a' <= c <= 'z') || ('A' <= c <= 'Z') || ('0' <= c <= '9') || c == '_'
            } {
            if name_run(name) < name.len() {
                assert(continues_name(name[name_run(name) as int]));
            }
            assert(continues_name(name[0]));
        }
    }
}

} // verus!
