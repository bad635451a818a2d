//! The signature registry: the one piece of state that capture and generation
//! share.

use crate::error::{DelegationError, DelegationErrorView};
use crate::lines::copy_texts;
use crate::views::{lemma_deep_view_index, lemma_deep_view_push};
use vstd::prelude::*;
use vstd::string::*;

verus! {

/// The map that a list of registrations amounts to: a later registration of a
/// name replaces an earlier one.
pub open spec fn table_of(entries: Seq<(Seq<char>, Seq<Seq<char>>)>) -> Map<
    Seq<char>,
    Seq<Seq<char>>,
>
    decreases entries.len(),
{
    if entries.len() == 0 {
        Map::empty()
    } else {
        table_of(entries.drop_last()).insert(entries.last().0, entries.last().1)
    }
}

/// The last registration of a name decides what the name maps to.
proof fn lemma_table_last_wins(entries: Seq<(Seq<char>, Seq<Seq<char>>)>, k: int)
    requires
        0 <= k < entries.len(),
        forall|j: int| k < j < entries.len() ==> (#[trigger] entries[j]).0 != entries[k].0,
    ensures
        table_of(entries).contains_key(entries[k].0),
        table_of(entries)[entries[k].0] == entries[k].1,
    decreases entries.len(),
{
    if k < entries.len() - 1 {
        let front = entries.drop_last();
        assert(entries.last() == entries[entries.len() - 1]);
        assert forall|j: int| k < j < front.len() implies (#[trigger] front[j]).0
            != front[k].0 by {
            assert(front[j] == entries[j]);
        }
        lemma_table_last_wins(front, k);
    }
}

/// A name that was never registered maps to nothing.
proof fn lemma_table_absent(entries: Seq<(Seq<char>, Seq<Seq<char>>)>, name: Seq<char>)
    requires
        forall|j: int| 0 <= j < entries.len() ==> (#[trigger] entries[j]).0 != name,
    ensures
        !table_of(entries).contains_key(name),
    decreases entries.len(),
{
    if entries.len() > 0 {
        let front = entries.drop_last();
        assert(entries.last() == entries[entries.len() - 1]);
        assert forall|j: int| 0 <= j < front.len() implies (#[trigger] front[j]).0 != name by {
            assert(front[j] == entries[j]);
        }
        lemma_table_absent(front, name);
    }
}

/// Replacing the last registration of a name is registering the name anew.
proof fn lemma_table_replace(
    entries: Seq<(Seq<char>, Seq<Seq<char>>)>,
    k: int,
    signatures: Seq<Seq<char>>,
)
    requires
        0 <= k < entries.len(),
        forall|j: int| k < j < entries.len() ==> (#[trigger] entries[j]).0 != entries[k].0,
    ensures
        table_of(entries.update(k, (entries[k].0, signatures))) == table_of(entries).insert(
            entries[k].0,
            signatures,
        ),
    decreases entries.len(),
{
    let name = entries[k].0;
    let changed = entries.update(k, (name, signatures));
    let front = entries.drop_last();
    if k == entries.len() - 1 {
        assert(changed.drop_last() =~= front);
        assert(table_of(changed) =~= table_of(entries).insert(name, signatures));
    } else {
        assert(entries.last() == entries[entries.len() - 1]);
        assert forall|j: int| k < j < front.len() implies (#[trigger] front[j]).0
            != front[k].0 by {
            assert(front[j] == entries[j]);
        }
        lemma_table_replace(front, k, signatures);
        assert(changed.drop_last() =~= front.update(k, (name, signatures)));
        assert(changed.last() == entries.last());
        assert(table_of(changed) =~= table_of(entries).insert(name, signatures));
    }
}

/// Maps the name of each captured interface to its signatures, in transport
/// form and in the order of their declaration.
pub struct Registry {
    entries: Vec<(String, Vec<String>)>,
}

impl View for Registry {
    type V = Map<Seq<char>, Seq<Seq<char>>>;

    closed spec fn view(&self) -> Map<Seq<char>, Seq<Seq<char>>> {
        table_of(self.entries.deep_view())
    }
}

impl Registry {
    /// A registry that holds no interface.
    pub fn new() -> (registry: Registry)
        ensures
            registry@ == Map::<Seq<char>, Seq<Seq<char>>>::empty(),
    {
        let registry = Registry { entries: Vec::new() };
        assert(registry.entries.deep_view() =~= Seq::empty());
        registry
    }

    /// The place of the last registration of `name`, where there is one.
    fn position(&self, name: &String) -> (place: Option<usize>)
        ensures
            match place {
                Some(k) => {
                    &&& k < self.entries.len()
                    &&& self.entries.deep_view()[k as int].0 == name@
                    &&& forall|j: int|
                        k < j < self.entries.len() ==> (#[trigger] self.entries.deep_view()[j]).0
                            != name@
                },
                None => forall|j: int|
                    0 <= j < self.entries.len() ==> (#[trigger] self.entries.deep_view()[j]).0
                        != name@,
            },
    {
        let mut i: usize = self.entries.len();
        while i > 0
            invariant
                i <= self.entries.len(),
                forall|j: int|
                    i <= j < self.entries.len() ==> (#[trigger] self.entries.deep_view()[j]).0
                        != name@,
            decreases i,
        {
            i -= 1;
            proof {
                lemma_deep_view_index(self.entries, i as int);
            }
            if self.entries[i].0 == *name {
                return Some(i);
            }
        }
        None
    }

    /// Stores `signatures` under `name`. What was stored under that name before
    /// is replaced; every other name keeps what it has.
    pub fn register(&mut self, name: &str, signatures: Vec<String>)
        ensures
            final(self)@ == old(self)@.insert(name@, signatures.deep_view()),
    {
        let key = name.to_owned();
        let ghost before = self.entries;
        match self.position(&key) {
            Some(k) => {
                self.entries[k] = (key, signatures);
                proof {
                    lemma_table_replace(before.deep_view(), k as int, signatures.deep_view());
                    assert(self.entries.deep_view() =~= before.deep_view().update(
                        k as int,
                        (name@, signatures.deep_view()),
                    ));
                }
            },
            None => {
                self.entries.push((key, signatures));
                proof {
                    lemma_deep_view_push(before, self.entries, (key, signatures));
                    assert(self.entries.deep_view().drop_last() =~= before.deep_view());
                }
            },
        }
    }

    /// Whether an interface is stored under `name`.
    pub fn contains(&self, name: &str) -> (found: bool)
        ensures
            found == self@.contains_key(name@),
    {
        let key = name.to_owned();
        match self.position(&key) {
            Some(k) => {
                proof {
                    lemma_table_last_wins(self.entries.deep_view(), k as int);
                }
                true
            },
            None => {
                proof {
                    lemma_table_absent(self.entries.deep_view(), name@);
                }
                false
            },
        }
    }

    /// The signatures stored under `name`, or `UnknownInterface` where nothing
    /// was registered under it.
    pub fn lookup(&self, name: &str) -> (found: Result<Vec<String>, DelegationError>)
        ensures
            match found {
                Ok(signatures) => self@.contains_key(name@) && signatures.deep_view()
                    == self@[name@],
                Err(error) => !self@.contains_key(name@) && error@
                    == (DelegationErrorView::UnknownInterface { interface: name@ }),
            },
    {
        let key = name.to_owned();
        match self.position(&key) {
            Some(k) => {
                proof {
                    lemma_table_last_wins(self.entries.deep_view(), k as int);
                    lemma_deep_view_index(self.entries, k as int);
                }
                Ok(copy_texts(&self.entries[k].1))
            },
            None => {
                proof {
                    lemma_table_absent(self.entries.deep_view(), name@);
                }
                Err(DelegationError::UnknownInterface { interface: key })
            },
        }
    }
}

} // verus!
