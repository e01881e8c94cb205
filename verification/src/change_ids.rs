//! The mapping from change identities to the commits that currently carry them.
//!
//! A mapping is built for one rewrite and thrown away after it. Where the same change
//! identity is entered twice, the later entry wins.

use crate::ids::ObjectId;
use vstd::prelude::*;

verus! {

/// A mapping from change identity to commit.
#[derive(Clone, Debug)]
pub struct ChangeIds {
    entries: Vec<(String, ObjectId)>,
}

/// The mapping that a list of entries stands for: each entry overrides those before it.
pub open spec fn map_of(entries: Seq<(Seq<char>, ObjectId)>) -> Map<Seq<char>, ObjectId>
    decreases entries.len(),
{
    if entries.len() == 0 {
        Map::empty()
    } else {
        map_of(entries.drop_last()).insert(entries.last().0, entries.last().1)
    }
}

/// A key that no entry carries is not in the mapping.
proof fn lemma_absent(entries: Seq<(Seq<char>, ObjectId)>, key: Seq<char>)
    requires
        forall|j: int| 0 <= j < entries.len() ==> (#[trigger] entries[j]).0 != key,
    ensures
        !map_of(entries).contains_key(key),
    decreases entries.len(),
{
    if entries.len() > 0 {
        lemma_absent(entries.drop_last(), key);
    }
}

/// The last entry that carries a key decides what the key maps to.
proof fn lemma_last_wins(entries: Seq<(Seq<char>, ObjectId)>, key: Seq<char>, i: int)
    requires
        0 <= i < entries.len(),
        entries[i].0 == key,
        forall|j: int| i < j < entries.len() ==> (#[trigger] entries[j]).0 != key,
    ensures
        map_of(entries).contains_key(key),
        map_of(entries)[key] == entries[i].1,
    decreases entries.len(),
{
    if i < entries.len() - 1 {
        lemma_last_wins(entries.drop_last(), key, i);
    }
}

impl ChangeIds {
    /// The entries in the order in which they were made.
    pub closed spec fn entries(&self) -> Seq<(Seq<char>, ObjectId)> {
        self.entries@.map_values(|e: (String, ObjectId)| (e.0@, e.1))
    }
}

impl View for ChangeIds {
    type V = Map<Seq<char>, ObjectId>;

    open spec fn view(&self) -> Map<Seq<char>, ObjectId> {
        map_of(self.entries())
    }
}

impl ChangeIds {
    /// The mapping with nothing in it.
    pub fn new() -> (r: ChangeIds)
        ensures
            r.entries() == Seq::<(Seq<char>, ObjectId)>::empty(),
            r@ == Map::<Seq<char>, ObjectId>::empty(),
    {
        let r = ChangeIds { entries: Vec::new() };
        r
    }

    /// Maps `change_id` to `commit`, in place of what it was mapped to before.
    pub fn insert(&mut self, change_id: String, commit: ObjectId)
        ensures
            final(self).entries() == old(self).entries().push((change_id@, commit)),
            final(self)@ == old(self)@.insert(change_id@, commit),
    {
        self.entries.push((change_id, commit));
        proof {
            assert(self.entries().drop_last() =~= old(self).entries());
        }
    }

    /// The commit that `change_id` is mapped to, if any.
    pub fn get(&self, change_id: &String) -> (r: Option<ObjectId>)
        ensures
            r == (if self@.contains_key(change_id@) {
                Some(self@[change_id@])
            } else {
                None
            }),
    {
        let mut i: usize = self.entries.len();
        while i > 0
            invariant
                i <= self.entries.len(),
                forall|j: int|
                    i <= j < self.entries().len() ==> (#[trigger] self.entries()[j]).0
                        != change_id@,
            decreases i,
        {
            i -= 1;
            if self.entries[i].0 == *change_id {
                proof {
                    lemma_last_wins(self.entries(), change_id@, i as int);
                }
                return Some(self.entries[i].1);
            }
        }
        proof {
            lemma_absent(self.entries(), change_id@);
        }
        None
    }

    /// How many entries were made, overridden ones included.
    pub fn entry_count(&self) -> (r: usize)
        ensures
            r == self.entries().len(),
    {
        self.entries.len()
    }
}

} // verus!
