//! The plain references of the store, grouped by the commit they point to.
//!
//! The table is a `gix::hashtable::HashMap` keyed by object id. Verus does not look inside
//! it: what it holds is named by [`refs_by_commit`], and each call into it states its effect
//! over that name.

use crate::ids::ObjectId;
use vstd::prelude::*;

verus! {

/// For each commit, the full names of the plain references that point to it, in the order
/// in which they were added.
#[verifier::external_body]
pub struct RefsByCommit {
    inner: gix::hashtable::HashMap<gix::ObjectId, Vec<Vec<u8>>>,
}

/// What a table holds.
pub uninterp spec fn refs_by_commit(table: RefsByCommit) -> Map<ObjectId, Seq<Seq<u8>>>;

impl View for RefsByCommit {
    type V = Map<ObjectId, Seq<Seq<u8>>>;

    open spec fn view(&self) -> Map<ObjectId, Seq<Seq<u8>>> {
        refs_by_commit(*self)
    }
}

/// A list of names as mathematical values.
pub open spec fn names_view(names: Seq<Vec<u8>>) -> Seq<Seq<u8>> {
    Seq::new(names.len(), |i: int| names[i]@)
}

/// The contents of a table without entries.
pub open spec fn no_refs() -> Map<ObjectId, Seq<Seq<u8>>> {
    Map::empty()
}

/// The names recorded for `commit`, none if the table has no entry for it.
pub open spec fn names_at(table: Map<ObjectId, Seq<Seq<u8>>>, commit: ObjectId) -> Seq<Seq<u8>> {
    if table.contains_key(commit) {
        table[commit]
    } else {
        Seq::empty()
    }
}

/// Calls `default` of `gix::hashtable::HashMap`, which makes a map without entries.
#[verifier::external_body]
fn gix_table_new() -> (r: RefsByCommit)
    ensures
        refs_by_commit(r) == no_refs(),
{
    RefsByCommit { inner: gix::hashtable::HashMap::default() }
}

/// Calls `insert` of the map, which sets the value for the key and hands back the value that
/// the key had before, if it had one.
#[verifier::external_body]
fn gix_table_insert(table: &mut RefsByCommit, commit: &ObjectId, names: Vec<Vec<u8>>) -> (r: Option<
    Vec<Vec<u8>>,
>)
    ensures
        refs_by_commit(*final(table)) == refs_by_commit(*old(table)).insert(
            *commit,
            names_view(names@),
        ),
        r.is_some() == refs_by_commit(*old(table)).contains_key(*commit),
        r matches Some(before) ==> names_view(before@) == refs_by_commit(*old(table))[*commit],
{
    table.inner.insert(gix::ObjectId::from(commit.bytes), names)
}

/// Calls `remove` of the map, which takes the key's entry out and hands back its value, if
/// the key had one.
#[verifier::external_body]
fn gix_table_remove(table: &mut RefsByCommit, commit: &ObjectId) -> (r: Option<Vec<Vec<u8>>>)
    ensures
        refs_by_commit(*final(table)) == refs_by_commit(*old(table)).remove(*commit),
        r.is_some() == refs_by_commit(*old(table)).contains_key(*commit),
        r matches Some(names) ==> names_view(names@) == refs_by_commit(*old(table))[*commit],
{
    table.inner.remove(&gix::ObjectId::from(commit.bytes))
}

impl RefsByCommit {
    /// A table without entries.
    pub fn new() -> (r: RefsByCommit)
        ensures
            r@ == no_refs(),
    {
        gix_table_new()
    }

    /// Records that the reference `name` points to `commit`, after those already recorded
    /// for that commit.
    pub fn add(&mut self, commit: &ObjectId, name: Vec<u8>)
        ensures
            final(self)@ == old(self)@.insert(*commit, names_at(old(self)@, *commit).push(name@)),
    {
        let mut names = match gix_table_remove(self, commit) {
            Some(names) => names,
            None => Vec::new(),
        };
        let ghost before = names_view(names@);
        assert(before =~= names_at(old(self)@, *commit));
        names.push(name);
        assert(names_view(names@) =~= before.push(name@));
        let _ = gix_table_insert(self, commit, names);
    }

    /// Takes the entry of `commit` out of the table and returns its names, if it had one.
    pub fn take(&mut self, commit: &ObjectId) -> (r: Option<Vec<Vec<u8>>>)
        ensures
            final(self)@ == old(self)@.remove(*commit),
            r.is_some() == old(self)@.contains_key(*commit),
            r matches Some(names) ==> names_view(names@) == old(self)@[*commit],
    {
        gix_table_remove(self, commit)
    }
}

} // verus!
