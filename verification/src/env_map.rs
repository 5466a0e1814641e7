//! Environment variables: names with their values, each name once.
use vstd::prelude::*;

use crate::text;

verus! {

/// The values that a list of entries gives to names. Of two entries with one
/// name the later one counts.
pub open spec fn bindings(entries: Seq<(String, String)>) -> Map<Seq<char>, Seq<char>>
    decreases entries.len(),
{
    if entries.len() == 0 {
        Map::empty()
    } else {
        bindings(entries.drop_last()).insert(entries.last().0@, entries.last().1@)
    }
}

/// No name stands in two entries.
pub open spec fn names_differ(entries: Seq<(String, String)>) -> bool {
    forall|i: int, j: int|
        0 <= i < j < entries.len() ==> (#[trigger] entries[i]).0@ != (#[trigger] entries[j]).0@
}

/// A set of environment variables.
#[derive(Debug)]
pub struct EnvMap {
    entries: Vec<(String, String)>,
}

impl View for EnvMap {
    type V = Map<Seq<char>, Seq<char>>;

    closed spec fn view(&self) -> Map<Seq<char>, Seq<char>> {
        bindings(self.entries@)
    }
}

proof fn lemma_bound_iff_listed(entries: Seq<(String, String)>, k: Seq<char>)
    ensures
        bindings(entries).dom().contains(k) <==> exists|i: int|
            0 <= i < entries.len() && (#[trigger] entries[i]).0@ == k,
    decreases entries.len(),
{
    if entries.len() > 0 {
        let init = entries.drop_last();
        lemma_bound_iff_listed(init, k);
        if bindings(entries).dom().contains(k) {
            if entries.last().0@ == k {
                assert(entries[entries.len() - 1].0@ == k);
            } else {
                let i = choose|i: int| 0 <= i < init.len() && (#[trigger] init[i]).0@ == k;
                assert(entries[i].0@ == k);
            }
        }
        if exists|i: int| 0 <= i < entries.len() && (#[trigger] entries[i]).0@ == k {
            let i = choose|i: int| 0 <= i < entries.len() && (#[trigger] entries[i]).0@ == k;
            if i < init.len() {
                assert(init[i].0@ == k);
            }
        }
    }
}

proof fn lemma_listed_value(entries: Seq<(String, String)>, i: int)
    requires
        names_differ(entries),
        0 <= i < entries.len(),
    ensures
        bindings(entries).dom().contains(entries[i].0@),
        bindings(entries)[entries[i].0@] == entries[i].1@,
    decreases entries.len(),
{
    let init = entries.drop_last();
    if i < init.len() {
        assert(names_differ(init)) by {
            assert forall|a: int, b: int| 0 <= a < b < init.len() implies (#[trigger] init[a]).0@
                != (#[trigger] init[b]).0@ by {
                assert(entries[a].0@ != entries[b].0@);
            }
        }
        lemma_listed_value(init, i);
        assert(entries[i].0@ != entries[entries.len() - 1].0@);
    }
}

proof fn lemma_replaced_value(entries: Seq<(String, String)>, i: int, value: (String, String))
    requires
        names_differ(entries),
        0 <= i < entries.len(),
        value.0@ == entries[i].0@,
    ensures
        names_differ(entries.update(i, value)),
        bindings(entries.update(i, value)) == bindings(entries).insert(value.0@, value.1@),
{
    let new = entries.update(i, value);
    assert forall|a: int, b: int| 0 <= a < b < new.len() implies (#[trigger] new[a]).0@ != (
    #[trigger] new[b]).0@ by {
        assert(entries[a].0@ != entries[b].0@);
    }
    let want = bindings(entries).insert(value.0@, value.1@);
    assert forall|k: Seq<char>| bindings(new).dom().contains(k) <==> want.dom().contains(k) by {
        lemma_bound_iff_listed(entries, k);
        lemma_bound_iff_listed(new, k);
        if exists|a: int| 0 <= a < new.len() && (#[trigger] new[a]).0@ == k {
            let a = choose|a: int| 0 <= a < new.len() && (#[trigger] new[a]).0@ == k;
            assert(entries[a].0@ == k);
        }
        if exists|a: int| 0 <= a < entries.len() && (#[trigger] entries[a]).0@ == k {
            let a = choose|a: int| 0 <= a < entries.len() && (#[trigger] entries[a]).0@ == k;
            assert(new[a].0@ == k);
        }
        assert(new[i].0@ == value.0@);
    }
    assert forall|k: Seq<char>| bindings(new).dom().contains(k) implies bindings(new)[k]
        == want[k] by {
        lemma_bound_iff_listed(new, k);
        let a = choose|a: int| 0 <= a < new.len() && (#[trigger] new[a]).0@ == k;
        lemma_listed_value(new, a);
        lemma_listed_value(entries, a);
        if a != i {
            assert(new[a].0@ != new[i].0@);
        }
    }
    assert(bindings(new) =~= want);
}

proof fn lemma_same_bindings(a: Seq<(String, String)>, b: Seq<(String, String)>)
    requires
        a.len() == b.len(),
        forall|i: int|
            0 <= i < a.len() ==> (#[trigger] a[i]).0@ == b[i].0@ && a[i].1@ == b[i].1@,
    ensures
        bindings(a) == bindings(b),
    decreases a.len(),
{
    if a.len() > 0 {
        lemma_same_bindings(a.drop_last(), b.drop_last());
        assert(a[a.len() - 1].0@ == b[a.len() - 1].0@);
    }
}

impl Clone for EnvMap {
    fn clone(&self) -> (r: EnvMap)
        ensures
            r@ == self@,
    {
        proof {
            use_type_invariant(self);
        }
        let mut entries: Vec<(String, String)> = Vec::new();
        let mut i: usize = 0;
        while i < self.entries.len()
            invariant
                i <= self.entries.len(),
                entries.len() == i,
                forall|j: int|
                    0 <= j < i ==> (#[trigger] entries@[j]).0@ == self.entries@[j].0@
                        && entries@[j].1@ == self.entries@[j].1@,
            decreases self.entries.len() - i,
        {
            entries.push(
                (text::owned(self.entries[i].0.as_str()), text::owned(self.entries[i].1.as_str())),
            );
            i += 1;
        }
        proof {
            lemma_same_bindings(entries@, self.entries@);
            assert forall|a: int, b: int| 0 <= a < b < entries@.len() implies (
            #[trigger] entries@[a]).0@ != (#[trigger] entries@[b]).0@ by {
                assert(self.entries@[a].0@ != self.entries@[b].0@);
            }
        }
        EnvMap { entries }
    }
}

impl EnvMap {
    /// Every name stands in one entry only.
    #[verifier::type_invariant]
    spec fn wf(self) -> bool {
        names_differ(self.entries@)
    }

    /// The entries, in the order in which their names came in.
    pub closed spec fn listed(self) -> Seq<(String, String)> {
        self.entries@
    }

    /// The entries give the names their values.
    pub proof fn lemma_listed(&self)
        ensures
            self@ == bindings(self.listed()),
    {
    }

    /// No variables.
    pub fn new() -> (r: EnvMap)
        ensures
            r@ == Map::<Seq<char>, Seq<char>>::empty(),
            r.listed().len() == 0,
    {
        EnvMap { entries: Vec::new() }
    }

    /// The number of variables.
    pub fn len(&self) -> (r: usize)
        ensures
            r == self.listed().len(),
    {
        self.entries.len()
    }

    /// The name of a variable.
    pub fn name(&self, i: usize) -> (r: &str)
        requires
            i < self.listed().len(),
        ensures
            r@ == self.listed()[i as int].0@,
    {
        self.entries[i].0.as_str()
    }

    /// The value of a variable.
    pub fn value(&self, i: usize) -> (r: &str)
        requires
            i < self.listed().len(),
        ensures
            r@ == self.listed()[i as int].1@,
    {
        self.entries[i].1.as_str()
    }

    fn find(&self, name: &str) -> (r: Option<usize>)
        ensures
            match r {
                Some(i) => i < self.entries.len() && self.entries@[i as int].0@ == name@,
                None => !self@.dom().contains(name@),
            },
    {
        let mut i: usize = 0;
        while i < self.entries.len()
            invariant
                i <= self.entries.len(),
                forall|j: int| 0 <= j < i ==> (#[trigger] self.entries@[j]).0@ != name@,
            decreases self.entries.len() - i,
        {
            if text::same(self.entries[i].0.as_str(), name) {
                return Some(i);
            }
            i += 1;
        }
        proof {
            lemma_bound_iff_listed(self.entries@, name@);
        }
        None
    }

    /// The value of a name.
    pub fn get(&self, name: &str) -> (r: Option<&str>)
        ensures
            match r {
                Some(v) => self@.dom().contains(name@) && self@[name@] == v@,
                None => !self@.dom().contains(name@),
            },
    {
        proof {
            use_type_invariant(self);
        }
        match self.find(name) {
            Some(i) => {
                proof {
                    lemma_listed_value(self.entries@, i as int);
                }
                Some(self.entries[i].1.as_str())
            },
            None => None,
        }
    }

    /// Gives a name a value, whatever it had before.
    pub fn insert(&mut self, name: String, value: String)
        ensures
            final(self)@ == old(self)@.insert(name@, value@),
    {
        proof {
            use_type_invariant(&*self);
        }
        let ghost before = self.entries@;
        match self.find(name.as_str()) {
            Some(i) => {
                let mut entries: Vec<(String, String)> = Vec::new();
                std::mem::swap(&mut entries, &mut self.entries);
                proof {
                    lemma_replaced_value(before, i as int, (name, value));
                }
                entries.set(i, (name, value));
                self.entries = entries;
            },
            None => {
                let mut entries: Vec<(String, String)> = Vec::new();
                std::mem::swap(&mut entries, &mut self.entries);
                proof {
                    lemma_bound_iff_listed(before, name@);
                    let new = before.push((name, value));
                    assert(new.drop_last() == before);
                    assert forall|a: int, b: int| 0 <= a < b < new.len() implies (
                    #[trigger] new[a]).0@ != (#[trigger] new[b]).0@ by {
                        assert(before[a].0@ == new[a].0@);
                        if b < before.len() {
                            assert(before[b].0@ == new[b].0@);
                        }
                    }
                }
                entries.push((name, value));
                self.entries = entries;
            },
        }
    }
}

/// Of two entries with one name the later one counts, and an entry says nothing
/// of other names.
pub proof fn law_later_entry_counts(
    entries: Seq<(String, String)>,
    name: String,
    value: String,
    other: Seq<char>,
)
    ensures
        bindings(entries.push((name, value))).dom().contains(name@),
        bindings(entries.push((name, value)))[name@] == value@,
        other != name@ ==> (bindings(entries.push((name, value))).dom().contains(other)
            <==> bindings(entries).dom().contains(other)),
        other != name@ && bindings(entries).dom().contains(other) ==> bindings(
            entries.push((name, value)),
        )[other] == bindings(entries)[other],
{
    assert(entries.push((name, value)).drop_last() == entries);
}

} // verus!
