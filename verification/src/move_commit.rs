//! Moving a commit from one stack to another: what is checked first, and what is to be done.
//!
//! A move is refused if the destination stack is unknown, if the commit is not among the
//! commits of the source stack, or if the commit is entangled with its neighbours there.
//! Otherwise a [`MovePlan`] says what the store has to do: which commits of the source stack
//! to rebase onto the parent of the moved commit, and onto which commit of the destination
//! stack to pick the moved commit.

use crate::ids::{hex_encode, ObjectId};
use crate::locking::{analyze, verdict, CommitChanges, CommitChangesView, Verdict};
use crate::rewrite::ChangedCommit;
use crate::state::{StackId, StackView, VirtualBranchesState};
use vstd::prelude::*;
use vstd::string::*;

verus! {

/// Why a commit was not moved.
#[derive(Clone, Copy, Debug, PartialEq, Eq)]
pub enum MoveError {
    /// No stack has the identifier of the destination.
    DestinationNotFound,
    /// The commit is not among the commits of the source stack.
    CommitNotFound { commit: ObjectId },
    /// The commit changes what an older commit of its stack changed.
    DependsOnOtherChanges,
    /// A newer commit of its stack changes what the commit changed.
    HasDependentChanges,
}

/// The words in which an error is reported.
pub open spec fn message_of(error: MoveError) -> Seq<char> {
    match error {
        MoveError::DestinationNotFound => "Destination branch not found"@,
        MoveError::CommitNotFound { commit } => "commit "@ + hex_encode(commit)
            + " to be moved could not be found"@,
        MoveError::DependsOnOtherChanges => "Commit depends on other changes"@,
        MoveError::HasDependentChanges => "Commit has dependent changes"@,
    }
}

impl MoveError {
    /// The words in which the error is reported.
    pub fn message(&self) -> (r: String)
        ensures
            r@ == message_of(*self),
    {
        match self {
            MoveError::DestinationNotFound => String::from_str("Destination branch not found"),
            MoveError::CommitNotFound { commit } => {
                let hex = commit.to_hex();
                String::from_str("commit ").concat(hex.as_str()).concat(
                    " to be moved could not be found",
                )
            },
            MoveError::DependsOnOtherChanges => String::from_str("Commit depends on other changes"),
            MoveError::HasDependentChanges => String::from_str("Commit has dependent changes"),
        }
    }
}

/// What the store has to do to move a commit.
#[derive(Clone, Debug, PartialEq, Eq)]
pub struct MovePlan {
    /// The commit that moves.
    pub commit: ObjectId,
    /// The head of the destination stack, onto which the commit is picked.
    pub onto: ObjectId,
    /// The commit below the moved one in the source stack, if there is one: the commits
    /// above are rebased onto it.
    pub parent: Option<ObjectId>,
    /// The commits of the source stack above the moved one, oldest first: the order in which
    /// they are rebased.
    pub descendants: Vec<ObjectId>,
    /// The commits of the source stack without the moved one, newest first, as they were.
    pub remaining: Vec<ObjectId>,
}

/// A [`MovePlan`] as a mathematical value.
pub struct MovePlanView {
    pub commit: ObjectId,
    pub onto: ObjectId,
    pub parent: Option<ObjectId>,
    pub descendants: Seq<ObjectId>,
    pub remaining: Seq<ObjectId>,
}

impl View for MovePlan {
    type V = MovePlanView;

    open spec fn view(&self) -> MovePlanView {
        MovePlanView {
            commit: self.commit,
            onto: self.onto,
            parent: self.parent,
            descendants: self.descendants@,
            remaining: self.remaining@,
        }
    }
}

/// The stack at position `i` is the first with the identifier `id`.
pub open spec fn is_stack_position(stacks: Seq<StackView>, id: StackId, i: int) -> bool {
    &&& 0 <= i < stacks.len()
    &&& stacks[i].id == id
    &&& forall|j: int| 0 <= j < i ==> (#[trigger] stacks[j]).id != id
}

/// Whether a stack has the identifier `id`.
pub open spec fn has_stack(stacks: Seq<StackView>, id: StackId) -> bool {
    exists|i: int| 0 <= i < stacks.len() && (#[trigger] stacks[i]).id == id
}

/// The commit at position `at` is the first with the identifier `commit`.
pub open spec fn is_commit_position(
    commits: Seq<CommitChangesView>,
    commit: ObjectId,
    at: int,
) -> bool {
    &&& 0 <= at < commits.len()
    &&& commits[at].id == commit
    &&& forall|j: int| 0 <= j < at ==> (#[trigger] commits[j]).id != commit
}

/// Whether the commit is among the commits.
pub open spec fn is_listed(commits: Seq<CommitChangesView>, commit: ObjectId) -> bool {
    exists|i: int| 0 <= i < commits.len() && (#[trigger] commits[i]).id == commit
}

/// The plan for moving the commit at position `at` onto the commit `onto`. What remains of
/// the source stack is every other commit, in the order it had.
pub open spec fn planned(commits: Seq<CommitChangesView>, at: int, onto: ObjectId) -> MovePlanView {
    MovePlanView {
        commit: commits[at].id,
        onto,
        parent: if at + 1 < commits.len() {
            Some(commits[at + 1].id)
        } else {
            None
        },
        descendants: Seq::new(at as nat, |i: int| commits[at - 1 - i].id),
        remaining: Seq::new(
            (commits.len() - 1) as nat,
            |i: int|
                if i < at {
                    commits[i].id
                } else {
                    commits[i + 1].id
                },
        ),
    }
}

/// Whether the result is the right one for moving `commit` out of the stack `source`, which
/// has these commits, listed newest first, to the stack `destination`. The first reason to
/// refuse that applies is the one given. A source that is not among the stacks has no
/// commits.
pub open spec fn move_decided(
    stacks: Seq<StackView>,
    destination: StackId,
    commit: ObjectId,
    source: StackId,
    commits: Seq<CommitChangesView>,
    r: Result<MovePlanView, MoveError>,
) -> bool {
    if !has_stack(stacks, destination) {
        r == Err::<MovePlanView, MoveError>(MoveError::DestinationNotFound)
    } else if !has_stack(stacks, source) || !is_listed(commits, commit) {
        r == Err::<MovePlanView, MoveError>(MoveError::CommitNotFound { commit })
    } else {
        exists|at: int, to: int|
            {
                &&& #[trigger] is_commit_position(commits, commit, at)
                &&& #[trigger] is_stack_position(stacks, destination, to)
                &&& r == match verdict(commits, at) {
                    Verdict::RefuseAncestors => Err(MoveError::DependsOnOtherChanges),
                    Verdict::RefuseDescendants => Err(MoveError::HasDependentChanges),
                    Verdict::Allow => Ok(planned(commits, at, stacks[to].head)),
                }
            }
    }
}

/// The result of planning, with the plan as values.
pub open spec fn plan_view(r: Result<MovePlan, MoveError>) -> Result<MovePlanView, MoveError> {
    match r {
        Ok(plan) => Ok(plan@),
        Err(e) => Err(e),
    }
}

/// The position of the first stack with the identifier, if there is one.
fn find_stack(state: &VirtualBranchesState, id: StackId) -> (r: Option<usize>)
    ensures
        r.is_some() == has_stack(state@.branches, id),
        r matches Some(i) ==> is_stack_position(state@.branches, id, i as int),
{
    let mut i: usize = 0;
    while i < state.branches.len()
        invariant
            i <= state.branches.len(),
            forall|j: int| 0 <= j < i ==> (#[trigger] state@.branches[j]).id != id,
        decreases state.branches.len() - i,
    {
        if state.branches[i].id == id {
            assert(state@.branches[i as int].id == id);
            return Some(i);
        }
        i += 1;
    }
    None
}

/// The position of the first commit with the identifier, if there is one.
fn find_commit(commits: &Vec<CommitChanges>, commit: &ObjectId) -> (r: Option<usize>)
    ensures
        r.is_some() == is_listed(commits.deep_view(), *commit),
        r matches Some(at) ==> is_commit_position(commits.deep_view(), *commit, at as int),
{
    let mut i: usize = 0;
    while i < commits.len()
        invariant
            i <= commits.len(),
            forall|j: int| 0 <= j < i ==> (#[trigger] commits.deep_view()[j]).id != *commit,
        decreases commits.len() - i,
    {
        if commits[i].id.same_as(commit) {
            assert(commits.deep_view()[i as int].id == *commit);
            return Some(i);
        }
        i += 1;
    }
    None
}

/// Decides whether `commit` can move from the stack `source`, whose commits are
/// `source_commits`, newest first, each with the paths it changes, to the stack
/// `destination`, and plans the move if it can.
pub fn move_commit(
    state: &VirtualBranchesState,
    destination: StackId,
    commit: &ObjectId,
    source: StackId,
    source_commits: &Vec<CommitChanges>,
) -> (r: Result<MovePlan, MoveError>)
    ensures
        move_decided(
            state@.branches,
            destination,
            *commit,
            source,
            source_commits.deep_view(),
            plan_view(r),
        ),
{
    let ghost commits = source_commits.deep_view();
    let to = match find_stack(state, destination) {
        Some(to) => to,
        None => {
            return Err(MoveError::DestinationNotFound);
        },
    };
    if find_stack(state, source).is_none() {
        return Err(MoveError::CommitNotFound { commit: *commit });
    }
    let at = match find_commit(source_commits, commit) {
        Some(at) => at,
        None => {
            return Err(MoveError::CommitNotFound { commit: *commit });
        },
    };
    match analyze(source_commits, at) {
        Verdict::RefuseAncestors => {
            return Err(MoveError::DependsOnOtherChanges);
        },
        Verdict::RefuseDescendants => {
            return Err(MoveError::HasDependentChanges);
        },
        Verdict::Allow => {},
    }
    let onto = state.branches[to].head;
    let parent = if at + 1 < source_commits.len() {
        Some(source_commits[at + 1].id)
    } else {
        None
    };
    let mut descendants: Vec<ObjectId> = Vec::new();
    let mut i: usize = at;
    while i > 0
        invariant
            i <= at < source_commits.len(),
            commits == source_commits.deep_view(),
            descendants.len() == at - i,
            forall|k: int| 0 <= k < descendants.len() ==> descendants[k] == commits[at - 1 - k].id,
        decreases i,
    {
        i -= 1;
        descendants.push(source_commits[i].id);
    }
    let mut remaining: Vec<ObjectId> = Vec::new();
    let mut j: usize = 0;
    while j < source_commits.len()
        invariant
            j <= source_commits.len(),
            at < source_commits.len(),
            commits == source_commits.deep_view(),
            remaining.len() == if j <= at {
                j as int
            } else {
                j - 1
            },
            forall|k: int|
                0 <= k < remaining.len() ==> remaining[k] == if k < at {
                    commits[k].id
                } else {
                    commits[k + 1].id
                },
        decreases source_commits.len() - j,
    {
        if j != at {
            remaining.push(source_commits[j].id);
        }
        j += 1;
    }
    let plan = MovePlan { commit: source_commits[at].id, onto, parent, descendants, remaining };
    proof {
        let want = planned(commits, at as int, state@.branches[to as int].head);
        assert(plan@.descendants =~= want.descendants);
        assert(plan@.remaining =~= want.remaining);
    }
    Ok(plan)
}

/// A commit that the store made while carrying out a plan, with its tree.
#[derive(Clone, Copy, Debug, PartialEq, Eq)]
pub struct NewCommit {
    pub id: ObjectId,
    pub tree: ObjectId,
}

impl MovePlan {
    /// The changed commits of the source stack, once the store has rebased the commits above
    /// the moved one: each of them was replaced by the commit that the store made for it.
    /// `rebased` holds those commits in the order of `descendants`; `None` if it does not
    /// hold one for each.
    pub fn source_changes(&self, rebased: &Vec<NewCommit>) -> (r: Option<Vec<ChangedCommit>>)
        ensures
            r.is_some() == (rebased.len() == self.descendants.len()),
            r matches Some(changes) ==> {
                &&& changes.len() == rebased.len()
                &&& forall|i: int|
                    0 <= i < changes.len() ==> #[trigger] changes[i] == (ChangedCommit {
                        old: self.descendants[i],
                        new: rebased[i].id,
                        new_tree: Some(rebased[i].tree),
                    })
            },
    {
        if rebased.len() != self.descendants.len() {
            return None;
        }
        let mut changes: Vec<ChangedCommit> = Vec::new();
        let mut i: usize = 0;
        while i < rebased.len()
            invariant
                i <= rebased.len(),
                rebased.len() == self.descendants.len(),
                changes.len() == i,
                forall|k: int|
                    0 <= k < i ==> #[trigger] changes[k] == (ChangedCommit {
                        old: self.descendants[k],
                        new: rebased[k].id,
                        new_tree: Some(rebased[k].tree),
                    }),
            decreases rebased.len() - i,
        {
            changes.push(
                ChangedCommit {
                    old: self.descendants[i],
                    new: rebased[i].id,
                    new_tree: Some(rebased[i].tree),
                },
            );
            i += 1;
        }
        Some(changes)
    }

    /// The changed commit of the destination stack, once the store has picked the moved
    /// commit onto its head: the head was replaced by the picked commit.
    pub fn destination_change(&self, picked: NewCommit) -> (r: ChangedCommit)
        ensures
            r == (ChangedCommit { old: self.onto, new: picked.id, new_tree: Some(picked.tree) }),
    {
        ChangedCommit { old: self.onto, new: picked.id, new_tree: Some(picked.tree) }
    }
}

/// Where the commit at position `i` of the source stack stands among the remaining ones,
/// once the commit at `at` has left.
pub open spec fn slot(i: int, at: int) -> int {
    if i < at {
        i
    } else {
        i - 1
    }
}

/// What remains of the source stack after a move keeps its order: every commit but the
/// moved one remains, and of two that remain, the one that came first still comes first.
pub proof fn lemma_remaining_keeps_order(commits: Seq<CommitChangesView>, at: int, onto: ObjectId)
    requires
        0 <= at < commits.len(),
    ensures
        planned(commits, at, onto).remaining.len() == commits.len() - 1,
        forall|i: int|
            0 <= i < commits.len() && i != at ==> 0 <= slot(i, at) < commits.len() - 1 && planned(
                commits,
                at,
                onto,
            ).remaining[slot(i, at)] == (#[trigger] commits[i]).id,
        forall|i: int, j: int|
            0 <= i < j < commits.len() && i != at && j != at ==> #[trigger] slot(i, at)
                < #[trigger] slot(j, at),
{
}

} // verus!
