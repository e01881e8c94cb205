//! Whether a commit can leave its stack.
//!
//! A commit is entangled with another commit of its stack if both change the same path. A
//! commit that is entangled with an older commit depends on it; a commit that a newer
//! commit is entangled with has dependents. Either way it cannot be moved. Only what the
//! commits of the stack changed is looked at, never the working copy.

use crate::ids::ObjectId;
use crate::names::bytes_equal;
use crate::refs_table::names_view;
use vstd::prelude::*;

verus! {

/// A commit of a stack with the paths that it changes.
#[derive(Clone, Debug, PartialEq, Eq)]
pub struct CommitChanges {
    pub id: ObjectId,
    pub paths: Vec<Vec<u8>>,
}

/// A [`CommitChanges`] as a mathematical value.
pub struct CommitChangesView {
    pub id: ObjectId,
    pub paths: Seq<Seq<u8>>,
}

impl View for CommitChanges {
    type V = CommitChangesView;

    open spec fn view(&self) -> CommitChangesView {
        CommitChangesView { id: self.id, paths: names_view(self.paths@) }
    }
}

impl DeepView for CommitChanges {
    type V = CommitChangesView;

    open spec fn deep_view(&self) -> CommitChangesView {
        self@
    }
}

/// What the analysis says of a commit that is to be moved.
#[derive(Clone, Copy, Debug, PartialEq, Eq, Structural)]
pub enum Verdict {
    /// The commit can be moved.
    Allow,
    /// The commit changes a path that an older commit of the stack changes.
    RefuseAncestors,
    /// A newer commit of the stack changes a path that the commit changes.
    RefuseDescendants,
}

/// Whether some path is in both lists.
pub open spec fn share_path(a: Seq<Seq<u8>>, b: Seq<Seq<u8>>) -> bool {
    exists|i: int, j: int|
        0 <= i < a.len() && 0 <= j < b.len() && #[trigger] a[i] == #[trigger] b[j]
}

/// Whether the commit at `at` shares a path with an older commit. The commits are listed
/// newest first, so the older ones come after it.
pub open spec fn depends_on_ancestor(commits: Seq<CommitChangesView>, at: int) -> bool {
    exists|k: int|
        at < k < commits.len() && share_path(commits[at].paths, (#[trigger] commits[k]).paths)
}

/// Whether a newer commit shares a path with the commit at `at`.
pub open spec fn has_dependent(commits: Seq<CommitChangesView>, at: int) -> bool {
    exists|k: int| 0 <= k < at && share_path(commits[at].paths, (#[trigger] commits[k]).paths)
}

/// The verdict on the commit at `at`. Where it both depends on an older commit and has
/// dependents, the dependency is what is reported.
pub open spec fn verdict(commits: Seq<CommitChangesView>, at: int) -> Verdict {
    if depends_on_ancestor(commits, at) {
        Verdict::RefuseAncestors
    } else if has_dependent(commits, at) {
        Verdict::RefuseDescendants
    } else {
        Verdict::Allow
    }
}

/// Whether the list holds the path.
fn holds_path(paths: &Vec<Vec<u8>>, path: &Vec<u8>) -> (r: bool)
    ensures
        r == exists|j: int| 0 <= j < paths.len() && #[trigger] names_view(paths@)[j] == path@,
{
    let mut j: usize = 0;
    while j < paths.len()
        invariant
            j <= paths.len(),
            forall|k: int| 0 <= k < j ==> #[trigger] names_view(paths@)[k] != path@,
        decreases paths.len() - j,
    {
        if bytes_equal(paths[j].as_slice(), path.as_slice()) {
            assert(names_view(paths@)[j as int] == path@);
            return true;
        }
        j += 1;
    }
    false
}

/// Whether two commits change a common path.
pub fn entangled(a: &CommitChanges, b: &CommitChanges) -> (r: bool)
    ensures
        r == share_path(a@.paths, b@.paths),
{
    let mut i: usize = 0;
    while i < a.paths.len()
        invariant
            i <= a.paths.len(),
            forall|x: int, y: int|
                0 <= x < i && 0 <= y < b.paths.len() ==> #[trigger] a@.paths[x]
                    != #[trigger] b@.paths[y],
        decreases a.paths.len() - i,
    {
        if holds_path(&b.paths, &a.paths[i]) {
            let ghost j = choose|j: int|
                0 <= j < b.paths.len() && #[trigger] names_view(b.paths@)[j] == a.paths[i as int]@;
            assert(a@.paths[i as int] == b@.paths[j]);
            return true;
        }
        i += 1;
    }
    false
}

/// Decides whether the commit at position `at` of a stack can be moved. The commits of the
/// stack are listed newest first.
pub fn analyze(commits: &Vec<CommitChanges>, at: usize) -> (r: Verdict)
    requires
        at < commits.len(),
    ensures
        r == verdict(commits.deep_view(), at as int),
{
    let ghost all = commits.deep_view();
    let mut k: usize = at + 1;
    while k < commits.len()
        invariant
            at < k <= commits.len(),
            all == commits.deep_view(),
            forall|x: int|
                at < x < k ==> !share_path(all[at as int].paths, (#[trigger] all[x]).paths),
        decreases commits.len() - k,
    {
        if entangled(&commits[at], &commits[k]) {
            assert(share_path(all[at as int].paths, all[k as int].paths));
            return Verdict::RefuseAncestors;
        }
        k += 1;
    }
    let mut d: usize = 0;
    while d < at
        invariant
            d <= at < commits.len(),
            all == commits.deep_view(),
            !depends_on_ancestor(all, at as int),
            forall|x: int|
                0 <= x < d ==> !share_path(all[at as int].paths, (#[trigger] all[x]).paths),
        decreases at - d,
    {
        if entangled(&commits[at], &commits[d]) {
            assert(share_path(all[at as int].paths, all[d as int].paths));
            return Verdict::RefuseDescendants;
        }
        d += 1;
    }
    Verdict::Allow
}

} // verus!
