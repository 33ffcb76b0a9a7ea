//! The procedure table: a mapping from procedure names to their captured
//! bodies, where a later definition of a name replaces the earlier one.

use vstd::prelude::*;
use crate::text::str_eq;

verus! {

/// The mapping described by a list of definitions, later entries winning.
pub open spec fn map_of(es: Seq<(String, Vec<String>)>) -> Map<Seq<char>, Seq<Seq<char>>>
    decreases es.len(),
{
    if es.len() == 0 {
        Map::empty()
    } else {
        map_of(es.drop_last()).insert(es.last().0@, es.last().1.deep_view())
    }
}

/// The procedure table of one session: name-to-body definitions in the order
/// they were made.
pub struct ProcTable {
    entries: Vec<(String, Vec<String>)>,
}

impl View for ProcTable {
    type V = Map<Seq<char>, Seq<Seq<char>>>;

    closed spec fn view(&self) -> Map<Seq<char>, Seq<Seq<char>>> {
        map_of(self.entries@)
    }
}

proof fn lemma_map_of_skip(es: Seq<(String, Vec<String>)>, j: int, k: Seq<char>)
    requires
        0 <= j <= es.len(),
        forall|i: int| j <= i < es.len() ==> (#[trigger] es[i]).0@ != k,
    ensures
        map_of(es).contains_key(k) == map_of(es.take(j)).contains_key(k),
        map_of(es).contains_key(k) ==> map_of(es)[k] == map_of(es.take(j))[k],
    decreases es.len() - j,
{
    if j == es.len() {
        assert(es.take(j) =~= es);
    } else {
        assert(es.take(j + 1).drop_last() =~= es.take(j));
        assert(es.take(j + 1).last() == es[j]);
        lemma_map_of_skip(es, j + 1, k);
        assert(map_of(es.take(j + 1)) == map_of(es.take(j)).insert(es[j].0@, es[j].1.deep_view()));
    }
}

impl ProcTable {
    /// An empty table: no procedure is defined.
    pub fn new() -> (r: Self)
        ensures
            r@ == Map::<Seq<char>, Seq<Seq<char>>>::empty(),
    {
        ProcTable { entries: Vec::new() }
    }

    /// Records `name -> body`, overwriting any earlier definition of `name`.
    pub fn insert(&mut self, name: String, body: Vec<String>)
        ensures
            final(self)@ == old(self)@.insert(name@, body.deep_view()),
    {
        let ghost pre = self.entries@;
        let ghost nv = name@;
        let ghost bv = body.deep_view();
        self.entries.push((name, body));
        proof {
            assert(self.entries@.drop_last() =~= pre);
            assert(self.entries@.last().0@ == nv);
            assert(self.entries@.last().1.deep_view() == bv);
        }
    }

    /// The body recorded for `name` by its most recent definition, or `None`
    /// if `name` was never defined.
    pub fn lookup(&self, name: &str) -> (r: Option<&Vec<String>>)
        ensures
            match r {
                Some(b) => self@.contains_key(name@) && b.deep_view() == self@[name@],
                None => !self@.contains_key(name@),
            },
    {
        let mut j = self.entries.len();
        while j > 0
            invariant
                0 <= j <= self.entries.len(),
                forall|i: int|
                    j <= i < self.entries.len() ==> (#[trigger] self.entries@[i]).0@ != name@,
            decreases j,
    {
            j = j - 1;
            let entry = &self.entries[j];
            if str_eq(entry.0.as_str(), name) {
                proof {
                    lemma_map_of_skip(self.entries@, j + 1, name@);
                    assert(self.entries@.take(j + 1).drop_last() =~= self.entries@.take(j as int));
                    assert(self.entries@.take(j + 1).last() == self.entries@[j as int]);
                }
                return Some(&entry.1);
            }
        }
        proof {
            lemma_map_of_skip(self.entries@, 0, name@);
            assert(self.entries@.take(0) =~= Seq::<(String, Vec<String>)>::empty());
        }
        None
    }

    /// Whether `name` is currently defined.
    pub fn contains(&self, name: &str) -> (r: bool)
        ensures
            r == self@.contains_key(name@),
    {
        self.lookup(name).is_some()
    }
}

} // verus!
