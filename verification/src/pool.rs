//! The variables of a run.

use crate::graph::owned;
use crate::json::Json;
use crate::json::Tree;
use crate::json::fields_of;
use crate::json::lookup;
use crate::json::tree_of;
use crate::text::same_text;
use vstd::prelude::*;

verus! {

/// Variables by name.
pub struct Pool {
    pub entries: Vec<(String, Json)>,
}

impl View for Pool {
    type V = Map<Seq<char>, Tree>;

    open spec fn view(&self) -> Map<Seq<char>, Tree> {
        fields_of(self.entries@)
    }
}

/// The name of the variable `name` of the node `id`.
pub open spec fn variable(id: Seq<char>, name: Seq<char>) -> Seq<char> {
    id + "."@ + name
}

/// The variable of a node belongs to the node.
pub proof fn lemma_variable_owned(id: Seq<char>, name: Seq<char>)
    ensures
        owned(variable(id, name), id),
{
    reveal_strlit(".");
    assert(variable(id, name).subrange(0, id.len() as int) =~= id);
}

/// Writes the name of the variable `name` of the node `id`.
pub fn variable_text(id: &str, name: &str) -> (s: String)
    ensures
        s@ == variable(id@, name@),
{
    id.to_owned().concat(".").concat(name)
}

/// A variable's value; `Null` where it is unset.
pub open spec fn value_or_null(pool: Map<Seq<char>, Tree>, name: Seq<char>) -> Tree {
    if pool.dom().contains(name) {
        pool[name]
    } else {
        Tree::Null
    }
}

proof fn lemma_replace_last(s: Seq<(String, Json)>, i: int, e: (String, Json))
    requires
        0 <= i < s.len(),
        s[i].0@ == e.0@,
        forall|j: int| i < j < s.len() ==> s[j].0@ != e.0@,
    ensures
        fields_of(s.update(i, e)) == fields_of(s).insert(e.0@, tree_of(e.1)),
    decreases s.len(),
{
    let t = s.update(i, e);
    if i == s.len() - 1 {
        assert(t.drop_last() =~= s.drop_last());
    } else {
        lemma_replace_last(s.drop_last(), i, e);
        assert(t.drop_last() =~= s.drop_last().update(i, e));
    }
    assert(fields_of(t) =~= fields_of(s).insert(e.0@, tree_of(e.1)));
}

impl Pool {
    /// No variables.
    pub fn new() -> (p: Pool)
        ensures
            p@ == Map::<Seq<char>, Tree>::empty(),
    {
        Pool { entries: Vec::new() }
    }

    /// The value of a variable.
    pub fn get(&self, name: &str) -> (r: Option<&Json>)
        ensures
            match r {
                Some(v) => self@.dom().contains(name@) && self@[name@] == v@,
                None => !self@.dom().contains(name@),
            },
    {
        lookup(&self.entries, name)
    }

    /// A copy of the value of a variable, `Null` where it is unset.
    pub fn value(&self, name: &str) -> (j: Json)
        ensures
            j@ == value_or_null(self@, name@),
    {
        match self.get(name) {
            Some(v) => v.copied(),
            None => Json::Null,
        }
    }

    /// Sets a variable.
    pub fn set(&mut self, name: String, value: Json)
        ensures
            final(self)@ == old(self)@.insert(name@, value@),
    {
        let mut i: usize = self.entries.len();
        while i > 0
            invariant
                i <= self.entries@.len(),
                self.entries@ == old(self).entries@,
                forall|j: int| i <= j < self.entries@.len() ==> self.entries@[j].0@ != name@,
            decreases i,
        {
            i = i - 1;
            if same_text(&self.entries[i].0, &name) {
                proof {
                    lemma_replace_last(self.entries@, i as int, (name, value));
                }
                self.entries.set(i, (name, value));
                return;
            }
        }
        proof {
            assert(self.entries@.push((name, value)).drop_last() =~= self.entries@);
        }
        self.entries.push((name, value));
    }
}

} // verus!
