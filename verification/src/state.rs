//! The virtual-branch state: stacks, the heads inside them, and what a rewrite reports.
//!
//! Every type has a view that holds the same data as mathematical values; contracts are
//! stated over the views.

use crate::ids::ObjectId;
use vstd::prelude::*;

verus! {

/// The unique identifier of a stack.
#[derive(Clone, Copy, Debug, PartialEq, Eq, Hash, Structural)]
pub struct StackId {
    pub value: u128,
}

/// How a head says which commit it points to.
#[derive(Clone, Debug, PartialEq, Eq)]
pub enum CommitOrChangeId {
    /// The commit itself, as 40 hexadecimal digits.
    CommitId(String),
    /// A change identity, which survives amends and rebases of the commit.
    ChangeId(String),
}

/// A [`CommitOrChangeId`] as a mathematical value.
pub enum CommitOrChangeIdView {
    CommitId(Seq<char>),
    ChangeId(Seq<char>),
}

impl View for CommitOrChangeId {
    type V = CommitOrChangeIdView;

    open spec fn view(&self) -> CommitOrChangeIdView {
        match self {
            CommitOrChangeId::CommitId(hex) => CommitOrChangeIdView::CommitId(hex@),
            CommitOrChangeId::ChangeId(change) => CommitOrChangeIdView::ChangeId(change@),
        }
    }
}

/// An optional name as a mathematical value.
pub open spec fn opt_bytes(name: Option<Vec<u8>>) -> Option<Seq<u8>> {
    match name {
        Some(bytes) => Some(bytes@),
        None => None,
    }
}

/// A named head inside a stack.
#[derive(Clone, Debug, PartialEq, Eq)]
pub struct StackBranch {
    pub name: String,
    pub head: CommitOrChangeId,
    /// The full name of the plain reference that this head owns, once it has one.
    pub reference: Option<Vec<u8>>,
}

/// A [`StackBranch`] as a mathematical value.
pub struct StackBranchView {
    pub name: Seq<char>,
    pub head: CommitOrChangeIdView,
    pub reference: Option<Seq<u8>>,
}

impl View for StackBranch {
    type V = StackBranchView;

    open spec fn view(&self) -> StackBranchView {
        StackBranchView {
            name: self.name@,
            head: self.head@,
            reference: opt_bytes(self.reference),
        }
    }
}

impl DeepView for StackBranch {
    type V = StackBranchView;

    open spec fn deep_view(&self) -> StackBranchView {
        self@
    }
}

/// A line of commits with its heads, newest head first.
#[derive(Clone, Debug, PartialEq, Eq)]
pub struct Stack {
    pub id: StackId,
    pub name: String,
    pub head: ObjectId,
    pub tree: ObjectId,
    pub in_workspace: bool,
    pub heads: Vec<StackBranch>,
}

/// A [`Stack`] as a mathematical value.
pub struct StackView {
    pub id: StackId,
    pub name: Seq<char>,
    pub head: ObjectId,
    pub tree: ObjectId,
    pub in_workspace: bool,
    pub heads: Seq<StackBranchView>,
}

impl View for Stack {
    type V = StackView;

    open spec fn view(&self) -> StackView {
        StackView {
            id: self.id,
            name: self.name@,
            head: self.head,
            tree: self.tree,
            in_workspace: self.in_workspace,
            heads: self.heads.deep_view(),
        }
    }
}

impl DeepView for Stack {
    type V = StackView;

    open spec fn deep_view(&self) -> StackView {
        self@
    }
}

/// The upstream branch that stacks are measured against.
#[derive(Clone, Debug, PartialEq, Eq)]
pub struct Target {
    /// The full name of the upstream reference.
    pub branch: String,
}

/// All stacks, and the upstream target if one is configured.
#[derive(Clone, Debug, PartialEq, Eq)]
pub struct VirtualBranchesState {
    pub default_target: Option<Target>,
    pub branches: Vec<Stack>,
}

/// A [`VirtualBranchesState`] as a mathematical value.
pub struct VirtualBranchesStateView {
    pub default_target: Option<Seq<char>>,
    pub branches: Seq<StackView>,
}

impl View for VirtualBranchesState {
    type V = VirtualBranchesStateView;

    open spec fn view(&self) -> VirtualBranchesStateView {
        VirtualBranchesStateView {
            default_target: match self.default_target {
                Some(target) => Some(target.branch@),
                None => None,
            },
            branches: self.branches.deep_view(),
        }
    }
}

/// No two stacks share an identifier.
pub open spec fn distinct_ids(stacks: Seq<StackView>) -> bool {
    forall|i: int, j: int|
        0 <= i < j < stacks.len() ==> (#[trigger] stacks[i]).id != (#[trigger] stacks[j]).id
}

impl VirtualBranchesState {
    /// Whether no two stacks share an identifier.
    pub fn has_distinct_ids(&self) -> (r: bool)
        ensures
            r == distinct_ids(self@.branches),
    {
        let ghost stacks = self@.branches;
        let mut j: usize = 0;
        while j < self.branches.len()
            invariant
                j <= self.branches.len(),
                stacks == self@.branches,
                forall|a: int, b: int|
                    0 <= a < b < j ==> (#[trigger] stacks[a]).id != (#[trigger] stacks[b]).id,
            decreases self.branches.len() - j,
        {
            let mut i: usize = 0;
            while i < j
                invariant
                    i <= j < self.branches.len(),
                    stacks == self@.branches,
                    forall|a: int| 0 <= a < i ==> (#[trigger] stacks[a]).id != stacks[j as int].id,
                decreases j - i,
            {
                if self.branches[i].id == self.branches[j].id {
                    assert(stacks[i as int].id == stacks[j as int].id);
                    return false;
                }
                i += 1;
            }
            j += 1;
        }
        true
    }
}

/// Names one head of one stack: rewrites are then kept to that stack, and within it to the
/// heads from the newest down to the named one.
#[derive(Clone, Debug, PartialEq, Eq)]
pub struct StackSegmentId {
    pub stack_id: StackId,
    /// The full reference name of the head, such as `refs/heads/feature`.
    pub segment_ref: Vec<u8>,
}

/// What a reported update is about.
#[derive(Clone, Debug, PartialEq, Eq)]
pub enum Reference {
    /// A stack or a head, by its name.
    Virtual(String),
    /// A plain reference of the store, by its full name.
    Git(Vec<u8>),
}

/// A [`Reference`] as a mathematical value.
pub enum ReferenceView {
    Virtual(Seq<char>),
    Git(Seq<u8>),
}

impl View for Reference {
    type V = ReferenceView;

    open spec fn view(&self) -> ReferenceView {
        match self {
            Reference::Virtual(name) => ReferenceView::Virtual(name@),
            Reference::Git(name) => ReferenceView::Git(name@),
        }
    }
}

/// The record of one reference that moved from one commit to another.
#[derive(Clone, Debug, PartialEq, Eq)]
pub struct UpdatedReference {
    pub old_commit_id: ObjectId,
    pub new_commit_id: ObjectId,
    pub reference: Reference,
}

/// A [`UpdatedReference`] as a mathematical value.
pub struct UpdatedReferenceView {
    pub old_commit_id: ObjectId,
    pub new_commit_id: ObjectId,
    pub reference: ReferenceView,
}

impl View for UpdatedReference {
    type V = UpdatedReferenceView;

    open spec fn view(&self) -> UpdatedReferenceView {
        UpdatedReferenceView {
            old_commit_id: self.old_commit_id,
            new_commit_id: self.new_commit_id,
            reference: self.reference@,
        }
    }
}

impl DeepView for UpdatedReference {
    type V = UpdatedReferenceView;

    open spec fn deep_view(&self) -> UpdatedReferenceView {
        self@
    }
}

impl StackBranch {
    /// Points the head at `head` and returns the name of the plain reference that the head
    /// owns, if it owns one: that reference moves with the head.
    pub fn set_head(&mut self, head: CommitOrChangeId) -> (r: Option<Vec<u8>>)
        ensures
            final(self)@ == (StackBranchView { head: head@, ..old(self)@ }),
            opt_bytes(r) == old(self)@.reference,
    {
        self.head = head;
        match &self.reference {
            Some(name) => Some(name.clone()),
            None => None,
        }
    }
}

} // verus!
