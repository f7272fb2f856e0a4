//! Sets of names and of session numbers.

use super::matching::texts;
use std::collections::HashSet;
use vstd::prelude::*;
use vstd::std_specs::iter::IteratorSpec;

verus! {

broadcast use {
    vstd::std_specs::hash::group_hash_axioms,
    vstd::set_lib::group_set_properties,
    vstd::seq_lib::group_seq_properties,
};

/// The position of a name in a list.
pub fn position_of(names: &Vec<String>, name: &String) -> (r: Option<usize>)
    ensures
        match r {
            Some(i) => i < names@.len() && texts(names@)[i as int] == name@ && forall|j: int|
                0 <= j < i ==> #[trigger] texts(names@)[j] != name@,
            None => !texts(names@).contains(name@),
        },
{
    let mut i: usize = 0;
    while i < names.len()
        invariant
            i <= names@.len(),
            forall|j: int| 0 <= j < i ==> #[trigger] texts(names@)[j] != name@,
        decreases names@.len() - i,
    {
        if names[i] == *name {
            return Some(i);
        }
        i = i + 1;
    }
    None
}

/// Whether a name is in a list.
pub fn has_name(names: &Vec<String>, name: &String) -> (r: bool)
    ensures
        r == texts(names@).contains(name@),
{
    match position_of(names, name) {
        Some(i) => {
            assert(texts(names@)[i as int] == name@);
            true
        },
        None => false,
    }
}

/// A set without `x` if it held it, with `x` if it did not.
pub open spec fn toggled<T>(s: Set<T>, x: T) -> Set<T> {
    if s.contains(x) {
        s.remove(x)
    } else {
        s.insert(x)
    }
}

/// Toggling twice changes nothing.
pub proof fn lemma_toggled_twice<T>(s: Set<T>, x: T)
    ensures
        toggled(toggled(s, x), x) == s,
{
    assert(toggled(toggled(s, x), x) =~= s);
}

/// A set of names.
pub struct NameSet {
    names: Vec<String>,
}

impl View for NameSet {
    type V = Set<Seq<char>>;

    closed spec fn view(&self) -> Set<Seq<char>> {
        texts(self.names@).to_set()
    }
}

impl NameSet {
    /// No name occurs twice.
    pub closed spec fn wf(&self) -> bool {
        texts(self.names@).no_duplicates()
    }

    pub fn new() -> (s: Self)
        ensures
            s.wf(),
            s@ == Set::<Seq<char>>::empty(),
    {
        let s = NameSet { names: Vec::new() };
        assert(s@ =~= Set::empty());
        s
    }

    pub fn contains(&self, name: &String) -> (r: bool)
        ensures
            r == self@.contains(name@),
    {
        has_name(&self.names, name)
    }

    pub fn is_empty(&self) -> (r: bool)
        ensures
            r == (self@ == Set::<Seq<char>>::empty()),
    {
        if self.names.len() == 0 {
            assert(self@ =~= Set::empty());
            true
        } else {
            assert(texts(self.names@).contains(texts(self.names@)[0]));
            assert(self@.contains(texts(self.names@)[0]));
            false
        }
    }

    pub fn insert(&mut self, name: String)
        requires
            old(self).wf(),
        ensures
            final(self).wf(),
            final(self)@ == old(self)@.insert(name@),
    {
        if !self.contains(&name) {
            let ghost before = texts(self.names@);
            self.names.push(name);
            proof {
                let after = texts(self.names@);
                assert(after =~= before.push(name@));
                assert(after.to_set() =~= before.to_set().insert(name@)) by {
                    assert forall|x: Seq<char>| after.contains(x) == (before.contains(x) || x
                        == name@) by {
                        if before.contains(x) {
                            let i = before.index_of(x);
                            assert(after[i] == x);
                        }
                        if x == name@ {
                            assert(after[before.len() as int] == x);
                        }
                    }
                }
            }
        } else {
            assert(self@ =~= old(self)@.insert(name@));
        }
    }

    pub fn remove(&mut self, name: &String)
        requires
            old(self).wf(),
        ensures
            final(self).wf(),
            final(self)@ == old(self)@.remove(name@),
    {
        let ghost before = texts(self.names@);
        match position_of(&self.names, name) {
            Some(i) => {
                let _ = self.names.remove(i);
                proof {
                    let after = texts(self.names@);
                    assert(after =~= before.remove(i as int));
                    assert forall|x: Seq<char>| after.contains(x) == (before.contains(x) && x
                        != name@) by {
                        if before.contains(x) && x != name@ {
                            let j = before.index_of(x);
                            assert(after[if j < i { j } else { j - 1 }] == x);
                        }
                        if after.contains(x) {
                            let j = after.index_of(x);
                            assert(before[if j < i { j } else { j + 1 }] == x);
                        }
                    }
                    assert(after.to_set() =~= before.to_set().remove(name@));
                }
            },
            None => {
                assert(self@ =~= old(self)@.remove(name@));
            },
        }
    }

    /// Takes the name out if it is in the set, and puts it in otherwise.
    pub fn toggle(&mut self, name: String)
        requires
            old(self).wf(),
        ensures
            final(self).wf(),
            final(self)@ == toggled(old(self)@, name@),
    {
        if self.contains(&name) {
            self.remove(&name);
        } else {
            self.insert(name);
        }
    }

    /// The names in some order, each once.
    pub fn to_vec(&self) -> (v: Vec<String>)
        requires
            self.wf(),
        ensures
            texts(v@).to_set() == self@,
            texts(v@).no_duplicates(),
    {
        let mut v: Vec<String> = Vec::new();
        let mut i: usize = 0;
        while i < self.names.len()
            invariant
                i <= self.names@.len(),
                v@.len() == i,
                forall|j: int| 0 <= j < i ==> v@[j]@ == self.names@[j]@,
            decreases self.names@.len() - i,
        {
            v.push(self.names[i].clone());
            i = i + 1;
        }
        assert(texts(v@) =~= texts(self.names@));
        v
    }
}

/// Takes a session out of the set if it is there, and puts it in otherwise.
pub fn toggle_session(sessions: &mut HashSet<i64>, session: i64)
    ensures
        final(sessions)@ == toggled(old(sessions)@, session),
{
    if sessions.contains(&session) {
        let _ = sessions.remove(&session);
    } else {
        let _ = sessions.insert(session);
    }
}

/// The sessions in some order.
pub fn sessions_to_vec(sessions: &HashSet<i64>) -> (v: Vec<i64>)
    ensures
        v@.to_set() == sessions@,
        v@.no_duplicates(),
{
    let mut v: Vec<i64> = Vec::new();
    let ghost all = sessions.iter().remaining();
    for x in it: sessions.iter()
        invariant
            it.seq() == all,
            v@ == all.unref().take(it.index()),
    {
        assert(all.unref().take(it.index() + 1) =~= all.unref().take(it.index()).push(*x));
        v.push(*x);
    }
    assert(v@ =~= all.unref());
    v
}

/// Toggling turns around whether the one element is in the set, and that of no other.
pub proof fn lemma_toggled_turns_around<T>(s: Set<T>, x: T, y: T)
    ensures
        toggled(s, x).contains(x) != s.contains(x),
        y != x ==> toggled(s, x).contains(y) == s.contains(y),
{
}

} // verus!
