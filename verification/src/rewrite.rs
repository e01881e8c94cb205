//! Rewriting references after commits were rewritten.
//!
//! A rewrite takes a list of changed commits, each an old identifier and the new one that
//! replaces it, and moves everything that pointed to an old commit to the new one: the head
//! of each stack, the named heads inside it, and the plain references of the store. What
//! moved is reported as a list of records; the moves of plain references are returned as
//! guarded edits for the store to apply in one transaction.
//!
//! What a rewrite does is defined by [`after_pair`] for one changed commit and
//! [`after_pairs`] for a list of them, over the views of the state.

use crate::change_ids::ChangeIds;
use crate::ids::{hex_decode, hex_encode, ObjectId};
use crate::names::{
    bytes_equal, full_name_accepted, local_branch, name_bytes, name_is, short_name, shorten,
};
use crate::order::{
    is_name_order, lemma_name_order_unique, name_order, occurs, stack_names, stacks_by_name,
};
use crate::refs_table::{names_view, RefsByCommit};
use crate::rewrite_laws::{lemma_rewrite_keeps_stacks, same_stacks};
use crate::state::{
    CommitOrChangeId, CommitOrChangeIdView, Reference, ReferenceView, Stack, StackBranch,
    StackBranchView, StackId, StackSegmentId, StackView, UpdatedReference, UpdatedReferenceView,
    VirtualBranchesState,
};
use vstd::string::*;
use vstd::prelude::*;

verus! {

/// A commit that was rewritten: `old` was replaced by `new`, whose tree is `new_tree` if it
/// could be read.
#[derive(Clone, Copy, Debug, PartialEq, Eq)]
pub struct ChangedCommit {
    pub old: ObjectId,
    pub new: ObjectId,
    pub new_tree: Option<ObjectId>,
}

/// Keeps a rewrite to one stack, and within it to the heads from the newest down to the one
/// with the name `up_to`.
#[derive(Clone, Debug, PartialEq, Eq)]
pub struct Scope {
    pub stack_id: StackId,
    /// The short name of the last head that may still move.
    pub up_to: Vec<u8>,
}

/// A [`Scope`] as a mathematical value.
pub struct ScopeView {
    pub stack_id: StackId,
    pub up_to: Seq<u8>,
}

impl View for Scope {
    type V = ScopeView;

    open spec fn view(&self) -> ScopeView {
        ScopeView { stack_id: self.stack_id, up_to: self.up_to@ }
    }
}

/// The view of an optional scope.
pub open spec fn scope_view(scope: Option<&Scope>) -> Option<ScopeView> {
    match scope {
        Some(s) => Some(s@),
        None => None,
    }
}

/// A guarded update of one plain reference: it must point to `expected` now, and will point
/// to `new` afterwards.
#[derive(Clone, Debug, PartialEq, Eq)]
pub struct RefEdit {
    pub name: Vec<u8>,
    pub expected: ObjectId,
    pub new: ObjectId,
    pub log_message: String,
}

/// A [`RefEdit`] as a mathematical value.
pub struct RefEditView {
    pub name: Seq<u8>,
    pub expected: ObjectId,
    pub new: ObjectId,
    pub log_message: Seq<char>,
}

impl View for RefEdit {
    type V = RefEditView;

    open spec fn view(&self) -> RefEditView {
        RefEditView {
            name: self.name@,
            expected: self.expected,
            new: self.new,
            log_message: self.log_message@,
        }
    }
}

impl DeepView for RefEdit {
    type V = RefEditView;

    open spec fn deep_view(&self) -> RefEditView {
        self@
    }
}

/// The entry written to the log of each plain reference that a rewrite moves.
pub open spec fn log_message() -> Seq<char> {
    "Created or amended commit"@
}

/// The commit that a head points to: the one its digits spell, or the one that its change
/// identity is mapped to. `None` if the digits spell nothing or the identity is unknown.
pub open spec fn resolve(head: CommitOrChangeIdView, ids: Map<Seq<char>, ObjectId>) -> Option<
    ObjectId,
> {
    match head {
        CommitOrChangeIdView::CommitId(hex) => hex_decode(hex),
        CommitOrChangeIdView::ChangeId(change) => if ids.contains_key(change) {
            Some(ids[change])
        } else {
            None
        },
    }
}

/// Whether a rewrite with this scope touches the stack.
pub open spec fn in_scope(stack: StackView, scope: Option<ScopeView>) -> bool {
    match scope {
        Some(s) => s.stack_id == stack.id,
        None => true,
    }
}

/// Whether the head at position `i` lies beyond the head that the scope names, that is,
/// whether a head before it carries that name.
pub open spec fn gated(heads: Seq<StackBranchView>, scope: Option<ScopeView>, i: int) -> bool {
    match scope {
        Some(s) => exists|b: int| 0 <= b < i && name_bytes((#[trigger] heads[b]).name) == s.up_to,
        None => false,
    }
}

/// Whether the head at position `i` points to `old`.
pub open spec fn points_to(
    heads: Seq<StackBranchView>,
    ids: Map<Seq<char>, ObjectId>,
    old: ObjectId,
    i: int,
) -> bool {
    resolve(heads[i].head, ids) == Some(old)
}

/// Whether the head at position `i` moves: it points to `old` and is not gated.
pub open spec fn head_moves(
    heads: Seq<StackBranchView>,
    scope: Option<ScopeView>,
    ids: Map<Seq<char>, ObjectId>,
    old: ObjectId,
    i: int,
) -> bool {
    points_to(heads, ids, old, i) && !gated(heads, scope, i)
}

/// The head after it moved to `new`: it now names that commit by its digits.
pub open spec fn moved_head(head: StackBranchView, new: ObjectId) -> StackBranchView {
    StackBranchView { head: CommitOrChangeIdView::CommitId(hex_encode(new)), ..head }
}

/// The heads of a stack in scope after one changed commit.
pub open spec fn heads_after(
    heads: Seq<StackBranchView>,
    scope: Option<ScopeView>,
    ids: Map<Seq<char>, ObjectId>,
    pair: ChangedCommit,
) -> Seq<StackBranchView> {
    Seq::new(
        heads.len(),
        |i: int|
            if head_moves(heads, scope, ids, pair.old, i) {
                moved_head(heads[i], pair.new)
            } else {
                heads[i]
            },
    )
}

/// A stack after one changed commit.
pub open spec fn stack_after(
    stack: StackView,
    scope: Option<ScopeView>,
    ids: Map<Seq<char>, ObjectId>,
    pair: ChangedCommit,
) -> StackView {
    if !in_scope(stack, scope) {
        stack
    } else {
        StackView {
            head: if stack.head == pair.old {
                pair.new
            } else {
                stack.head
            },
            tree: if stack.head == pair.old && pair.new_tree.is_some() {
                pair.new_tree.unwrap()
            } else {
                stack.tree
            },
            heads: heads_after(stack.heads, scope, ids, pair),
            ..stack
        }
    }
}

/// All stacks after one changed commit.
pub open spec fn stacks_after(
    stacks: Seq<StackView>,
    scope: Option<ScopeView>,
    ids: Map<Seq<char>, ObjectId>,
    pair: ChangedCommit,
) -> Seq<StackView> {
    Seq::new(stacks.len(), |i: int| stack_after(stacks[i], scope, ids, pair))
}

/// The record of a stack or head with the name `name` that moved.
pub open spec fn virtual_record(pair: ChangedCommit, name: Seq<char>) -> UpdatedReferenceView {
    UpdatedReferenceView {
        old_commit_id: pair.old,
        new_commit_id: pair.new,
        reference: ReferenceView::Virtual(name),
    }
}

/// The record of a plain reference that moved.
pub open spec fn git_record(pair: ChangedCommit, name: Seq<u8>) -> UpdatedReferenceView {
    UpdatedReferenceView {
        old_commit_id: pair.old,
        new_commit_id: pair.new,
        reference: ReferenceView::Git(name),
    }
}

/// The guarded edit that moves a plain reference.
pub open spec fn git_edit(pair: ChangedCommit, name: Seq<u8>) -> RefEditView {
    RefEditView { name, expected: pair.old, new: pair.new, log_message: log_message() }
}

/// The records of the first `n` heads of a stack: one for each head that moves, in order.
pub open spec fn head_records(
    heads: Seq<StackBranchView>,
    scope: Option<ScopeView>,
    ids: Map<Seq<char>, ObjectId>,
    pair: ChangedCommit,
    n: int,
) -> Seq<UpdatedReferenceView>
    decreases n,
{
    if n <= 0 {
        Seq::empty()
    } else if head_moves(heads, scope, ids, pair.old, n - 1) {
        head_records(heads, scope, ids, pair, n - 1).push(virtual_record(pair, heads[n - 1].name))
    } else {
        head_records(heads, scope, ids, pair, n - 1)
    }
}

/// The records of one stack: one for the stack if its head moves, then those of its heads.
pub open spec fn stack_records(
    stack: StackView,
    scope: Option<ScopeView>,
    ids: Map<Seq<char>, ObjectId>,
    pair: ChangedCommit,
) -> Seq<UpdatedReferenceView> {
    if !in_scope(stack, scope) {
        Seq::empty()
    } else {
        let own = if stack.head == pair.old {
            seq![virtual_record(pair, stack.name)]
        } else {
            Seq::empty()
        };
        own + head_records(stack.heads, scope, ids, pair, stack.heads.len() as int)
    }
}

/// The records of the first `n` stacks in processing order.
pub open spec fn stacks_records(
    stacks: Seq<StackView>,
    order: Seq<usize>,
    scope: Option<ScopeView>,
    ids: Map<Seq<char>, ObjectId>,
    pair: ChangedCommit,
    n: int,
) -> Seq<UpdatedReferenceView>
    decreases n,
{
    if n <= 0 {
        Seq::empty()
    } else {
        stacks_records(stacks, order, scope, ids, pair, n - 1) + stack_records(
            stacks[order[n - 1] as int],
            scope,
            ids,
            pair,
        )
    }
}

/// Whether one of the first `n` heads points to `old` and owns the plain reference `name`.
pub open spec fn heads_handle(
    heads: Seq<StackBranchView>,
    ids: Map<Seq<char>, ObjectId>,
    old: ObjectId,
    name: Seq<u8>,
    n: int,
) -> bool {
    exists|h: int|
        0 <= h < n && points_to(heads, ids, old, h) && (#[trigger] heads[h]).reference == Some(name)
}

/// Whether the stack is in scope and one of its heads points to `old` and owns `name`.
pub open spec fn stack_handles(
    stack: StackView,
    scope: Option<ScopeView>,
    ids: Map<Seq<char>, ObjectId>,
    old: ObjectId,
    name: Seq<u8>,
) -> bool {
    in_scope(stack, scope) && heads_handle(stack.heads, ids, old, name, stack.heads.len() as int)
}

/// Whether the plain reference `name` is owned by a head that points to `old`, in a stack in
/// scope. Such a reference follows its head, or stays with it if the head is gated: either
/// way it gets no edit of its own.
pub open spec fn is_handled(
    stacks: Seq<StackView>,
    scope: Option<ScopeView>,
    ids: Map<Seq<char>, ObjectId>,
    old: ObjectId,
    name: Seq<u8>,
) -> bool {
    exists|s: int|
        0 <= s < stacks.len() && stack_handles(#[trigger] stacks[s], scope, ids, old, name)
}

/// Those of the first `n` names that are not handled, in order.
pub open spec fn unhandled(
    names: Seq<Seq<u8>>,
    stacks: Seq<StackView>,
    scope: Option<ScopeView>,
    ids: Map<Seq<char>, ObjectId>,
    old: ObjectId,
    n: int,
) -> Seq<Seq<u8>>
    decreases n,
{
    if n <= 0 {
        Seq::empty()
    } else if is_handled(stacks, scope, ids, old, names[n - 1]) {
        unhandled(names, stacks, scope, ids, old, n - 1)
    } else {
        unhandled(names, stacks, scope, ids, old, n - 1).push(names[n - 1])
    }
}

/// What a rewrite works on: the stacks, the plain references by the commit they point to,
/// the records written so far and the edits staged so far.
pub struct Engine {
    pub stacks: Seq<StackView>,
    pub refs: Map<ObjectId, Seq<Seq<u8>>>,
    pub records: Seq<UpdatedReferenceView>,
    pub edits: Seq<RefEditView>,
}

/// The plain references that get an edit for this changed commit: those recorded for the old
/// commit, without the handled ones.
pub open spec fn edited_names(
    e: Engine,
    scope: Option<ScopeView>,
    ids: Map<Seq<char>, ObjectId>,
    pair: ChangedCommit,
) -> Seq<Seq<u8>> {
    if e.refs.contains_key(pair.old) {
        unhandled(e.refs[pair.old], e.stacks, scope, ids, pair.old, e.refs[pair.old].len() as int)
    } else {
        Seq::empty()
    }
}

/// The engine after one changed commit.
pub open spec fn after_pair(
    e: Engine,
    scope: Option<ScopeView>,
    ids: Map<Seq<char>, ObjectId>,
    pair: ChangedCommit,
) -> Engine {
    let order = name_order(stack_names(e.stacks));
    let names = edited_names(e, scope, ids, pair);
    Engine {
        stacks: stacks_after(e.stacks, scope, ids, pair),
        refs: e.refs.remove(pair.old),
        records: e.records + stacks_records(e.stacks, order, scope, ids, pair, order.len() as int)
            + Seq::new(names.len(), |i: int| git_record(pair, names[i])),
        edits: e.edits + Seq::new(names.len(), |i: int| git_edit(pair, names[i])),
    }
}

/// The engine after the first `n` changed commits, applied in order.
pub open spec fn after_pairs(
    e: Engine,
    scope: Option<ScopeView>,
    ids: Map<Seq<char>, ObjectId>,
    pairs: Seq<ChangedCommit>,
    n: int,
) -> Engine
    decreases n,
{
    if n <= 0 {
        e
    } else {
        after_pair(after_pairs(e, scope, ids, pairs, n - 1), scope, ids, pairs[n - 1])
    }
}

/// Whether the changed commit cannot be applied: the head of a stack in scope would move to
/// the new commit, and the tree of that commit is not known.
pub open spec fn blocked(
    stacks: Seq<StackView>,
    scope: Option<ScopeView>,
    pair: ChangedCommit,
) -> bool {
    pair.new_tree.is_none() && exists|s: int|
        0 <= s < stacks.len() && in_scope(#[trigger] stacks[s], scope) && stacks[s].head == pair.old
}

/// None of the first `n` changed commits is blocked when its turn comes.
pub open spec fn clear_through(
    e: Engine,
    scope: Option<ScopeView>,
    ids: Map<Seq<char>, ObjectId>,
    pairs: Seq<ChangedCommit>,
    n: int,
) -> bool {
    forall|j: int|
        0 <= j < n ==> !blocked(
            (#[trigger] after_pairs(e, scope, ids, pairs, j)).stacks,
            scope,
            pairs[j],
        )
}

/// The commit that `head` points to, if it resolves.
pub fn resolve_head(head: &CommitOrChangeId, ids: &ChangeIds) -> (r: Option<ObjectId>)
    ensures
        r == resolve(head@, ids@),
{
    match head {
        CommitOrChangeId::CommitId(hex) => ObjectId::from_hex(hex.as_str()),
        CommitOrChangeId::ChangeId(change) => ids.get(change),
    }
}

/// The position of the first head with the short name `up_to`, if there is one.
pub fn boundary_index(heads: &Vec<StackBranch>, up_to: &Vec<u8>) -> (r: Option<usize>)
    ensures
        match r {
            Some(b) => b < heads.len() && name_bytes(heads[b as int].name@) == up_to@
                && forall|j: int| 0 <= j < b ==> name_bytes((#[trigger] heads[j]).name@) != up_to@,
            None => forall|j: int|
                0 <= j < heads.len() ==> name_bytes((#[trigger] heads[j]).name@) != up_to@,
        },
{
    let mut i: usize = 0;
    while i < heads.len()
        invariant
            i <= heads.len(),
            forall|j: int| 0 <= j < i ==> name_bytes((#[trigger] heads[j]).name@) != up_to@,
        decreases heads.len() - i,
    {
        if name_is(&heads[i].name, up_to) {
            return Some(i);
        }
        i += 1;
    }
    None
}

/// Moves the heads of one stack in scope for one changed commit, newest head first. Each
/// head that moves is reported; the plain reference of each head that points to the old
/// commit, moved or gated, is added to `handled`.
fn rewrite_heads(
    heads: &mut Vec<StackBranch>,
    scope: Option<&Scope>,
    ids: &ChangeIds,
    pair: &ChangedCommit,
    handled: &mut Vec<Vec<u8>>,
    updated_refs: &mut Vec<UpdatedReference>,
)
    ensures
        final(heads).deep_view() == heads_after(
            old(heads).deep_view(),
            scope_view(scope),
            ids@,
            *pair,
        ),
        final(updated_refs).deep_view() == old(updated_refs).deep_view() + head_records(
            old(heads).deep_view(),
            scope_view(scope),
            ids@,
            *pair,
            old(heads).len() as int,
        ),
        forall|name: Seq<u8>|
            #[trigger] names_view(final(handled)@).contains(name) <==> names_view(
                old(handled)@,
            ).contains(name) || heads_handle(
                old(heads).deep_view(),
                ids@,
                pair.old,
                name,
                old(heads).len() as int,
            ),
{
    let ghost pre = heads.deep_view();
    let ghost pre_records = updated_refs.deep_view();
    let ghost pre_handled = names_view(handled@);
    let ghost sv = scope_view(scope);
    let up_to_idx: Option<usize> = match scope {
        Some(s) => boundary_index(heads, &s.up_to),
        None => None,
    };
    let mut i: usize = 0;
    while i < heads.len()
        invariant
            i <= heads.len(),
            heads.len() == pre.len(),
            sv == scope_view(scope),
            forall|j: int|
                0 <= j < i ==> (#[trigger] heads[j])@ == heads_after(pre, sv, ids@, *pair)[j],
            forall|j: int| i <= j < heads.len() ==> (#[trigger] heads[j])@ == pre[j],
            forall|j: int| 0 <= j < heads.len() ==> (#[trigger] heads[j]).name@ == pre[j].name,
            match (scope, up_to_idx) {
                (Some(s), Some(b)) => b < pre.len() && name_bytes(pre[b as int].name) == s.up_to@
                    && forall|j: int|
                    0 <= j < b ==> name_bytes((#[trigger] pre[j]).name) != s.up_to@,
                (Some(s), None) => forall|j: int|
                    0 <= j < pre.len() ==> name_bytes((#[trigger] pre[j]).name) != s.up_to@,
                (None, _) => up_to_idx.is_none(),
            },
            updated_refs.deep_view() == pre_records + head_records(pre, sv, ids@, *pair, i as int),
            forall|name: Seq<u8>|
                #[trigger] names_view(handled@).contains(name) <==> pre_handled.contains(name)
                    || heads_handle(pre, ids@, pair.old, name, i as int),
        decreases heads.len() - i,
    {
        let ghost handled_before = names_view(handled@);
        let ghost records_before = updated_refs.deep_view();
        let target = resolve_head(&heads[i].head, ids);
        let points = match target {
            Some(id) => id.same_as(&pair.old),
            None => false,
        };
        if points {
            let is_gated = match up_to_idx {
                Some(b) => i > b,
                None => false,
            };
            if is_gated {
                match &heads[i].reference {
                    Some(name) => {
                        handled.push(name.clone());
                    },
                    None => {},
                }
            } else {
                let moved = heads[i].set_head(CommitOrChangeId::CommitId(pair.new.to_hex()));
                match moved {
                    Some(name) => {
                        handled.push(name);
                    },
                    None => {},
                }
                updated_refs.push(
                    UpdatedReference {
                        old_commit_id: pair.old,
                        new_commit_id: pair.new,
                        reference: Reference::Virtual(heads[i].name.clone()),
                    },
                );
                assert(updated_refs.deep_view() =~= records_before.push(
                    virtual_record(*pair, pre[i as int].name),
                ));
            }
        }
        proof {
            let reference = pre[i as int].reference;
            assert(names_view(handled@) =~= if points && reference.is_some() {
                handled_before.push(reference.unwrap())
            } else {
                handled_before
            });
            assert forall|name: Seq<u8>|
                #[trigger] names_view(handled@).contains(name) <==> pre_handled.contains(name)
                    || heads_handle(pre, ids@, pair.old, name, i + 1) by {
                if points && reference.is_some() {
                    lemma_push_contains(handled_before, reference.unwrap(), name);
                }
            }
        }
        i += 1;
    }
}

/// A pushed sequence contains what it contained before, and what was pushed.
proof fn lemma_push_contains(s: Seq<Seq<u8>>, pushed: Seq<u8>, name: Seq<u8>)
    ensures
        s.push(pushed).contains(name) <==> s.contains(name) || name == pushed,
{
    if s.contains(name) {
        let k = choose|k: int| 0 <= k < s.len() && s[k] == name;
        assert(s.push(pushed)[k] == name);
    }
    if name == pushed {
        assert(s.push(pushed)[s.len() as int] == name);
    }
}

/// Whether one of the first `n` stacks in processing order handles the name.
spec fn handled_through(
    stacks: Seq<StackView>,
    order: Seq<usize>,
    scope: Option<ScopeView>,
    ids: Map<Seq<char>, ObjectId>,
    old: ObjectId,
    name: Seq<u8>,
    n: int,
) -> bool {
    exists|k: int|
        0 <= k < n && stack_handles(stacks[#[trigger] order[k] as int], scope, ids, old, name)
}

/// Whether the stack at position `s` is among the first `n` in processing order.
spec fn visited(order: Seq<usize>, n: int, s: int) -> bool {
    exists|k: int| 0 <= k < n && #[trigger] order[k] == s
}

/// Whether the scope lets a rewrite touch the stack.
fn stack_in_scope(stack: &Stack, scope: Option<&Scope>) -> (r: bool)
    ensures
        r == in_scope(stack@, scope_view(scope)),
{
    match scope {
        Some(s) => s.stack_id == stack.id,
        None => true,
    }
}

/// Whether the head of a stack in scope points to `old`.
fn some_head_is(stacks: &Vec<Stack>, scope: Option<&Scope>, old: &ObjectId) -> (r: bool)
    ensures
        r == exists|s: int|
            0 <= s < stacks.len() && in_scope(#[trigger] stacks.deep_view()[s], scope_view(scope))
                && stacks.deep_view()[s].head == *old,
{
    let mut i: usize = 0;
    while i < stacks.len()
        invariant
            i <= stacks.len(),
            forall|s: int|
                0 <= s < i ==> !(in_scope(#[trigger] stacks.deep_view()[s], scope_view(scope))
                    && stacks.deep_view()[s].head == *old),
        decreases stacks.len() - i,
    {
        if stack_in_scope(&stacks[i], scope) && stacks[i].head.same_as(old) {
            assert(in_scope(stacks.deep_view()[i as int], scope_view(scope)));
            return true;
        }
        i += 1;
    }
    false
}

/// Applies one changed commit, which is not blocked, to all stacks in processing order, and
/// returns the names of the plain references that are handled.
fn rewrite_stacks(
    stacks: &mut Vec<Stack>,
    order: &Vec<usize>,
    scope: Option<&Scope>,
    ids: &ChangeIds,
    pair: &ChangedCommit,
    updated_refs: &mut Vec<UpdatedReference>,
) -> (handled: Vec<Vec<u8>>)
    requires
        is_name_order(stack_names(old(stacks).deep_view()), order@),
        !blocked(old(stacks).deep_view(), scope_view(scope), *pair),
    ensures
        final(stacks).deep_view() == stacks_after(
            old(stacks).deep_view(),
            scope_view(scope),
            ids@,
            *pair,
        ),
        final(updated_refs).deep_view() == old(updated_refs).deep_view() + stacks_records(
            old(stacks).deep_view(),
            order@,
            scope_view(scope),
            ids@,
            *pair,
            order.len() as int,
        ),
        forall|name: Seq<u8>|
            #[trigger] names_view(handled@).contains(name) <==> is_handled(
                old(stacks).deep_view(),
                scope_view(scope),
                ids@,
                pair.old,
                name,
            ),
{
    let ghost pre = stacks.deep_view();
    let ghost pre_records = updated_refs.deep_view();
    let ghost sv = scope_view(scope);
    let ghost names = stack_names(pre);
    let mut handled: Vec<Vec<u8>> = Vec::new();
    let mut k: usize = 0;
    while k < order.len()
        invariant
            k <= order.len(),
            stacks.len() == pre.len(),
            sv == scope_view(scope),
            names == stack_names(pre),
            is_name_order(names, order@),
            !blocked(pre, sv, *pair),
            forall|s: int|
                0 <= s < stacks.len() ==> (#[trigger] stacks[s])@ == if visited(
                    order@,
                    k as int,
                    s,
                ) {
                    stack_after(pre[s], sv, ids@, *pair)
                } else {
                    pre[s]
                },
            updated_refs.deep_view() == pre_records + stacks_records(
                pre,
                order@,
                sv,
                ids@,
                *pair,
                k as int,
            ),
            forall|name: Seq<u8>|
                #[trigger] names_view(handled@).contains(name) <==> handled_through(
                    pre,
                    order@,
                    sv,
                    ids@,
                    pair.old,
                    name,
                    k as int,
                ),
        decreases order.len() - k,
    {
        let si = order[k];
        let ghost records_before = updated_refs.deep_view();
        if stack_in_scope(&stacks[si], scope) {
            if stacks[si].head.same_as(&pair.old) {
                stacks[si].head = pair.new;
                match pair.new_tree {
                    Some(tree) => {
                        stacks[si].tree = tree;
                    },
                    None => {},
                }
                updated_refs.push(
                    UpdatedReference {
                        old_commit_id: pair.old,
                        new_commit_id: pair.new,
                        reference: Reference::Virtual(stacks[si].name.clone()),
                    },
                );
                assert(updated_refs.deep_view() =~= records_before + seq![
                    virtual_record(*pair, pre[si as int].name),
                ]);
            }
            rewrite_heads(&mut stacks[si].heads, scope, ids, pair, &mut handled, updated_refs);
        }
        k += 1;
    }
    proof {
        assert forall|s: int| 0 <= s < stacks.len() implies (#[trigger] stacks.deep_view()[s])
            == stacks_after(pre, sv, ids@, *pair)[s] by {
            assert(occurs(order@, s));
        }
        assert forall|name: Seq<u8>|
            #[trigger] names_view(handled@).contains(name) <==> is_handled(
                pre,
                sv,
                ids@,
                pair.old,
                name,
            ) by {
            lemma_handled_by_all(pre, order@, sv, ids@, pair.old, name);
        }
    }
    handled
}

/// Once every stack was processed, a name is handled by one of the processed stacks exactly
/// if it is handled at all.
proof fn lemma_handled_by_all(
    stacks: Seq<StackView>,
    order: Seq<usize>,
    scope: Option<ScopeView>,
    ids: Map<Seq<char>, ObjectId>,
    old: ObjectId,
    name: Seq<u8>,
)
    requires
        is_name_order(stack_names(stacks), order),
    ensures
        handled_through(stacks, order, scope, ids, old, name, order.len() as int) <==> is_handled(
            stacks,
            scope,
            ids,
            old,
            name,
        ),
{
    if is_handled(stacks, scope, ids, old, name) {
        let s = choose|s: int|
            0 <= s < stacks.len() && stack_handles(#[trigger] stacks[s], scope, ids, old, name);
        assert(occurs(order, s));
    }
}

/// Why a rewrite stopped.
#[derive(Clone, Copy, Debug, PartialEq, Eq)]
pub enum RewriteError {
    /// The reference that names the last head to move is not a valid full reference name.
    InvalidSegmentRef,
    /// The head of a stack would move to `commit`, the new commit of the changed commit at
    /// position `index`, but the tree of that commit is not known.
    MissingTree { index: usize, commit: ObjectId },
}

/// Those of the first `n` names that `skip` does not contain, in order.
spec fn without(names: Seq<Seq<u8>>, skip: Seq<Seq<u8>>, n: int) -> Seq<Seq<u8>>
    decreases n,
{
    if n <= 0 {
        Seq::empty()
    } else if skip.contains(names[n - 1]) {
        without(names, skip, n - 1)
    } else {
        without(names, skip, n - 1).push(names[n - 1])
    }
}

/// Where `skip` holds exactly the handled names, leaving out what `skip` contains leaves
/// out the handled names.
proof fn lemma_without_is_unhandled(
    names: Seq<Seq<u8>>,
    skip: Seq<Seq<u8>>,
    stacks: Seq<StackView>,
    scope: Option<ScopeView>,
    ids: Map<Seq<char>, ObjectId>,
    old: ObjectId,
    n: int,
)
    requires
        forall|name: Seq<u8>|
            #[trigger] skip.contains(name) <==> is_handled(stacks, scope, ids, old, name),
    ensures
        without(names, skip, n) == unhandled(names, stacks, scope, ids, old, n),
    decreases n,
{
    if n > 0 {
        lemma_without_is_unhandled(names, skip, stacks, scope, ids, old, n - 1);
    }
}

/// Whether the list holds the name.
fn holds_name(list: &Vec<Vec<u8>>, name: &Vec<u8>) -> (r: bool)
    ensures
        r == names_view(list@).contains(name@),
{
    let mut i: usize = 0;
    while i < list.len()
        invariant
            i <= list.len(),
            forall|j: int| 0 <= j < i ==> names_view(list@)[j] != name@,
        decreases list.len() - i,
    {
        if bytes_equal(list[i].as_slice(), name.as_slice()) {
            assert(names_view(list@)[i as int] == name@);
            return true;
        }
        i += 1;
    }
    false
}

/// Reports and stages the move of each plain reference in `names` that `handled` does not
/// hold.
fn stage_edits(
    names: &Vec<Vec<u8>>,
    handled: &Vec<Vec<u8>>,
    pair: &ChangedCommit,
    updated_refs: &mut Vec<UpdatedReference>,
    edits: &mut Vec<RefEdit>,
)
    ensures
        ({
            let kept = without(names_view(names@), names_view(handled@), names.len() as int);
            &&& final(updated_refs).deep_view() == old(updated_refs).deep_view() + Seq::new(
                kept.len(),
                |i: int| git_record(*pair, kept[i]),
            )
            &&& final(edits).deep_view() == old(edits).deep_view() + Seq::new(
                kept.len(),
                |i: int| git_edit(*pair, kept[i]),
            )
        }),
{
    let ghost pre_records = updated_refs.deep_view();
    let ghost pre_edits = edits.deep_view();
    let ghost all = names_view(names@);
    let ghost skip = names_view(handled@);
    let mut i: usize = 0;
    while i < names.len()
        invariant
            i <= names.len(),
            all == names_view(names@),
            skip == names_view(handled@),
            ({
                let kept = without(all, skip, i as int);
                &&& updated_refs.deep_view() == pre_records + Seq::new(
                    kept.len(),
                    |j: int| git_record(*pair, kept[j]),
                )
                &&& edits.deep_view() == pre_edits + Seq::new(
                    kept.len(),
                    |j: int| git_edit(*pair, kept[j]),
                )
            }),
        decreases names.len() - i,
    {
        let ghost kept = without(all, skip, i as int);
        let ghost records_before = updated_refs.deep_view();
        let ghost edits_before = edits.deep_view();
        if !holds_name(handled, &names[i]) {
            updated_refs.push(
                UpdatedReference {
                    old_commit_id: pair.old,
                    new_commit_id: pair.new,
                    reference: Reference::Git(names[i].clone()),
                },
            );
            edits.push(
                RefEdit {
                    name: names[i].clone(),
                    expected: pair.old,
                    new: pair.new,
                    log_message: String::from_str("Created or amended commit"),
                },
            );
            proof {
                assert(updated_refs.deep_view() =~= records_before.push(
                    git_record(*pair, all[i as int]),
                ));
                assert(edits.deep_view() =~= edits_before.push(git_edit(*pair, all[i as int])));
            }
        }
        i += 1;
    }
}

/// What a rewrite starts from.
pub open spec fn engine_at_start(
    state: &VirtualBranchesState,
    refs: RefsByCommit,
    updated_refs: &Vec<UpdatedReference>,
) -> Engine {
    Engine {
        stacks: state@.branches,
        refs: refs@,
        records: updated_refs.deep_view(),
        edits: Seq::empty(),
    }
}

/// The result of a rewrite, with the edits as values.
pub open spec fn result_view(r: Result<Vec<RefEdit>, RewriteError>) -> Result<
    Seq<RefEditView>,
    RewriteError,
> {
    match r {
        Ok(edits) => Ok(edits.deep_view()),
        Err(e) => Err(e),
    }
}

/// How many changed commits a rewrite with this result has applied.
pub open spec fn applied(
    r: Result<Seq<RefEditView>, RewriteError>,
    pairs: Seq<ChangedCommit>,
) -> int {
    match r {
        Ok(_) => pairs.len() as int,
        Err(RewriteError::MissingTree { index, .. }) => index as int,
        Err(RewriteError::InvalidSegmentRef) => 0,
    }
}

/// Whether a rewrite that started from `start` may end with these stacks, these records and
/// this result: the changed commits were applied in order up to the first blocked one, or
/// all of them if none was blocked, and the result says which of the two it was.
pub open spec fn rewrite_ends(
    start: Engine,
    scope: Option<ScopeView>,
    ids: Map<Seq<char>, ObjectId>,
    pairs: Seq<ChangedCommit>,
    stacks: Seq<StackView>,
    records: Seq<UpdatedReferenceView>,
    r: Result<Seq<RefEditView>, RewriteError>,
) -> bool {
    let done = applied(r, pairs);
    let end = after_pairs(start, scope, ids, pairs, done);
    &&& stacks == end.stacks
    &&& records == end.records
    &&& clear_through(start, scope, ids, pairs, done)
    &&& match r {
        Ok(edits) => edits == end.edits,
        Err(RewriteError::MissingTree { index, commit }) => {
            &&& index < pairs.len()
            &&& blocked(end.stacks, scope, pairs[index as int])
            &&& commit == pairs[index as int].new
        },
        Err(RewriteError::InvalidSegmentRef) => false,
    }
}

/// Rewrites all references for the changed commits, in the order given, within a scope.
///
/// For each changed commit, every stack in scope whose head is the old commit moves to the
/// new one and takes its tree; every head in such a stack that points to the old commit and
/// is not gated moves too; and every plain reference recorded for the old commit that no
/// such head owns gets a guarded edit. Each move is appended to `updated_refs`. The edits
/// are returned for the store to apply.
///
/// A changed commit is blocked if a stack head would move and the tree of the new commit is
/// missing. The rewrite stops before the first blocked one, with everything before it
/// applied, and says which it was.
pub fn rewrite_scoped(
    state: &mut VirtualBranchesState,
    change_ids: &ChangeIds,
    refs_by_commit_id: RefsByCommit,
    changed_commits: &Vec<ChangedCommit>,
    updated_refs: &mut Vec<UpdatedReference>,
    scope: Option<&Scope>,
) -> (r: Result<Vec<RefEdit>, RewriteError>)
    ensures
        final(state)@.default_target == old(state)@.default_target,
        rewrite_ends(
            engine_at_start(old(state), refs_by_commit_id, old(updated_refs)),
            scope_view(scope),
            change_ids@,
            changed_commits@,
            final(state)@.branches,
            final(updated_refs).deep_view(),
            result_view(r),
        ),
        r != Err::<Vec<RefEdit>, RewriteError>(RewriteError::InvalidSegmentRef),
        same_stacks(old(state)@.branches, final(state)@.branches),
{
    let ghost start = engine_at_start(state, refs_by_commit_id, updated_refs);
    let ghost sv = scope_view(scope);
    let ghost ids = change_ids@;
    let ghost pairs = changed_commits@;
    let ghost names = stack_names(state@.branches);
    let mut refs = refs_by_commit_id;
    let mut edits: Vec<RefEdit> = Vec::new();
    let order = stacks_by_name(&state.branches);
    let mut i: usize = 0;
    while i < changed_commits.len()
        invariant
            i <= changed_commits.len(),
            sv == scope_view(scope),
            ids == change_ids@,
            pairs == changed_commits@,
            start == engine_at_start(old(state), refs_by_commit_id, old(updated_refs)),
            state@.default_target == old(state)@.default_target,
            is_name_order(names, order@),
            stack_names(state@.branches) == names,
            clear_through(start, sv, ids, pairs, i as int),
            ({
                let now = after_pairs(start, sv, ids, pairs, i as int);
                &&& state@.branches == now.stacks
                &&& refs@ == now.refs
                &&& updated_refs.deep_view() == now.records
                &&& edits.deep_view() == now.edits
            }),
        decreases changed_commits.len() - i,
    {
        let pair = changed_commits[i];
        let ghost now = after_pairs(start, sv, ids, pairs, i as int);
        if pair.new_tree.is_none() && some_head_is(&state.branches, scope, &pair.old) {
            proof {
                lemma_rewrite_keeps_stacks(start, sv, ids, pairs, i as int);
            }
            return Err(RewriteError::MissingTree { index: i, commit: pair.new });
        }
        let handled = rewrite_stacks(
            &mut state.branches,
            &order,
            scope,
            change_ids,
            &pair,
            updated_refs,
        );
        match refs.take(&pair.old) {
            Some(listed) => {
                stage_edits(&listed, &handled, &pair, updated_refs, &mut edits);
                proof {
                    lemma_without_is_unhandled(
                        names_view(listed@),
                        names_view(handled@),
                        now.stacks,
                        sv,
                        ids,
                        pair.old,
                        listed.len() as int,
                    );
                }
            },
            None => {},
        }
        proof {
            lemma_name_order_unique(names, order@, name_order(names));
        }
        i += 1;
    }
    proof {
        lemma_rewrite_keeps_stacks(start, sv, ids, pairs, pairs.len() as int);
    }
    Ok(edits)
}

/// The scope that a segment stands for: the stack it names, and the short name of the
/// reference it names. `None` if that reference is not a valid full reference name.
pub open spec fn segment_scope(segment: Option<&StackSegmentId>) -> Option<Option<ScopeView>> {
    match segment {
        None => Some(None),
        Some(seg) => if full_name_accepted(seg.segment_ref@) {
            Some(Some(ScopeView { stack_id: seg.stack_id, up_to: short_name(seg.segment_ref@) }))
        } else {
            None
        },
    }
}

/// Rewrites all references for the changed commits, in the order given.
///
/// Without a segment every stack is rewritten. With one, only the stack it names is, and in
/// it only the heads from the newest down to the one that the segment's reference names;
/// what is done then is what [`rewrite_scoped`] does with the short name of that reference.
/// For the reference of a local branch, `refs/heads/` and a name, the short name is that
/// name. A segment whose reference is not a valid full reference name is refused, and
/// nothing changes.
pub fn rewrite(
    state: &mut VirtualBranchesState,
    change_ids: &ChangeIds,
    refs_by_commit_id: RefsByCommit,
    changed_commits: &Vec<ChangedCommit>,
    updated_refs: &mut Vec<UpdatedReference>,
    stack_segment: Option<&StackSegmentId>,
) -> (r: Result<Vec<RefEdit>, RewriteError>)
    ensures
        final(state)@.default_target == old(state)@.default_target,
        match segment_scope(stack_segment) {
            Some(scope) => rewrite_ends(
                engine_at_start(old(state), refs_by_commit_id, old(updated_refs)),
                scope,
                change_ids@,
                changed_commits@,
                final(state)@.branches,
                final(updated_refs).deep_view(),
                result_view(r),
            ),
            None => {
                &&& r == Err::<Vec<RefEdit>, RewriteError>(RewriteError::InvalidSegmentRef)
                &&& final(state)@ == old(state)@
                &&& final(updated_refs).deep_view() == old(updated_refs).deep_view()
            },
        },
        match stack_segment {
            Some(segment) => full_name_accepted(segment.segment_ref@) ==> forall|head: Seq<u8>|
                segment.segment_ref@ == #[trigger] local_branch(head) ==> short_name(
                    segment.segment_ref@,
                ) == head,
            None => true,
        },
        same_stacks(old(state)@.branches, final(state)@.branches),
{
    match stack_segment {
        None => rewrite_scoped(
            state,
            change_ids,
            refs_by_commit_id,
            changed_commits,
            updated_refs,
            None,
        ),
        Some(segment) => match shorten(&segment.segment_ref) {
            Some(up_to) => {
                let scope = Scope { stack_id: segment.stack_id, up_to };
                rewrite_scoped(
                    state,
                    change_ids,
                    refs_by_commit_id,
                    changed_commits,
                    updated_refs,
                    Some(&scope),
                )
            },
            None => Err(RewriteError::InvalidSegmentRef),
        },
    }
}

} // verus!
