//! What holds of every rewrite, proved from the definition of one step.

use crate::ids::{lemma_hex_round_trip, ObjectId};
use crate::refs_table::names_at;
use crate::order::{is_name_order, lemma_name_order_exists, name_order, stack_names};
use crate::rewrite::{
    after_pair, after_pairs, edited_names, gated, git_edit, git_record, head_moves,
    head_records, in_scope, is_handled, points_to, resolve, stacks_records, unhandled,
    ChangedCommit, Engine, ScopeView,
};
use crate::state::{distinct_ids, StackBranchView, StackView, UpdatedReferenceView};
use vstd::prelude::*;

verus! {

/// A name is among the unhandled ones of the first `n` exactly if it is one of the first
/// `n` names and is not handled.
pub proof fn lemma_unhandled_contains(
    names: Seq<Seq<u8>>,
    stacks: Seq<StackView>,
    scope: Option<ScopeView>,
    ids: Map<Seq<char>, ObjectId>,
    old: ObjectId,
    n: int,
    name: Seq<u8>,
)
    requires
        0 <= n <= names.len(),
    ensures
        unhandled(names, stacks, scope, ids, old, n).contains(name) <==> !is_handled(
            stacks,
            scope,
            ids,
            old,
            name,
        ) && exists|j: int| 0 <= j < n && names[j] == name,
    decreases n,
{
    if n > 0 {
        lemma_unhandled_contains(names, stacks, scope, ids, old, n - 1, name);
        let rest = unhandled(names, stacks, scope, ids, old, n - 1);
        let last = names[n - 1];
        if !is_handled(stacks, scope, ids, old, last) {
            let all = rest.push(last);
            if rest.contains(name) {
                let k = choose|k: int| 0 <= k < rest.len() && rest[k] == name;
                assert(all[k] == name);
            }
            if name == last {
                assert(all[rest.len() as int] == name);
            }
        }
    }
}

/// Applying a changed commit moves what pointed to the old commit, and nothing else.
///
/// In every stack in scope, a head of the stack that was the old commit is the new one
/// afterwards, and any other stays. A named head that pointed to the old commit and is not
/// gated points to the new one afterwards, under the same name and with the same plain
/// reference; every other named head is unchanged. A stack out of scope is unchanged.
/// Nothing but the head, the tree and the named heads of a stack ever changes.
pub proof fn lemma_pair_moves_stacks(
    e: Engine,
    scope: Option<ScopeView>,
    ids: Map<Seq<char>, ObjectId>,
    pair: ChangedCommit,
    s: int,
)
    requires
        0 <= s < e.stacks.len(),
    ensures
        ({
            let before = e.stacks[s];
            let after = after_pair(e, scope, ids, pair).stacks[s];
            &&& after_pair(e, scope, ids, pair).stacks.len() == e.stacks.len()
            &&& after.id == before.id
            &&& after.name == before.name
            &&& after.in_workspace == before.in_workspace
            &&& after.heads.len() == before.heads.len()
            &&& !in_scope(before, scope) ==> after == before
            &&& in_scope(before, scope) && before.head == pair.old ==> after.head == pair.new
            &&& in_scope(before, scope) && before.head == pair.old && pair.new_tree.is_some()
                ==> after.tree == pair.new_tree.unwrap()
            &&& before.head != pair.old ==> after.head == before.head && after.tree == before.tree
            &&& forall|h: int|
                0 <= h < before.heads.len() ==> {
                    let head = #[trigger] before.heads[h];
                    let now = after.heads[h];
                    &&& now.name == head.name
                    &&& now.reference == head.reference
                    &&& in_scope(before, scope) && head_moves(before.heads, scope, ids, pair.old, h)
                        ==> resolve(now.head, ids) == Some(pair.new)
                    &&& !(in_scope(before, scope) && head_moves(
                        before.heads,
                        scope,
                        ids,
                        pair.old,
                        h,
                    )) ==> now == head
                }
        }),
{
    lemma_hex_round_trip(pair.new);
}

/// Applying a changed commit stages an edit for each plain reference that pointed to the old
/// commit and that no head owns, and for no other.
///
/// The edits staged before stay as they are. Each new edit moves a reference that was
/// recorded for the old commit and is not handled, from the old commit to the new one; each
/// such reference has its edit. The entry of the old commit leaves the table, and no other
/// entry changes.
pub proof fn lemma_pair_moves_plain_references(
    e: Engine,
    scope: Option<ScopeView>,
    ids: Map<Seq<char>, ObjectId>,
    pair: ChangedCommit,
)
    ensures
        ({
            let after = after_pair(e, scope, ids, pair);
            let listed = names_at(e.refs, pair.old);
            &&& after.edits.len() >= e.edits.len()
            &&& after.edits.subrange(0, e.edits.len() as int) == e.edits
            &&& forall|k: int|
                e.edits.len() <= k < after.edits.len() ==> {
                    let edit = #[trigger] after.edits[k];
                    &&& edit == git_edit(pair, edit.name)
                    &&& listed.contains(edit.name)
                    &&& !is_handled(e.stacks, scope, ids, pair.old, edit.name)
                }
            &&& forall|name: Seq<u8>|
                #[trigger] listed.contains(name) && !is_handled(
                    e.stacks,
                    scope,
                    ids,
                    pair.old,
                    name,
                ) ==> exists|k: int|
                    e.edits.len() <= k < after.edits.len() && #[trigger] after.edits[k] == git_edit(
                        pair,
                        name,
                    )
            &&& after.refs == e.refs.remove(pair.old)
        }),
{
    let after = after_pair(e, scope, ids, pair);
    let listed = names_at(e.refs, pair.old);
    let kept = edited_names(e, scope, ids, pair);
    assert forall|k: int| e.edits.len() <= k < after.edits.len() implies {
        let edit = #[trigger] after.edits[k];
        &&& edit == git_edit(pair, edit.name)
        &&& listed.contains(edit.name)
        &&& !is_handled(e.stacks, scope, ids, pair.old, edit.name)
    } by {
        let name = kept[k - e.edits.len()];
        lemma_unhandled_contains(listed, e.stacks, scope, ids, pair.old, listed.len() as int, name);
    }
    assert forall|name: Seq<u8>|
        #[trigger] listed.contains(name) && !is_handled(
            e.stacks,
            scope,
            ids,
            pair.old,
            name,
        ) implies exists|k: int|
        e.edits.len() <= k < after.edits.len() && #[trigger] after.edits[k] == git_edit(
            pair,
            name,
        ) by {
        lemma_unhandled_contains(listed, e.stacks, scope, ids, pair.old, listed.len() as int, name);
        let i = choose|i: int| 0 <= i < kept.len() && kept[i] == name;
        assert(after.edits[e.edits.len() + i] == git_edit(pair, name));
    }
}

/// A gated head never changes, and its plain reference gets no edit.
///
/// Whatever the changed commit, a head that lies beyond the head that the scope names is the
/// same afterwards. If it points to the old commit and owns a plain reference, none of the
/// edits and none of the records that the changed commit adds is about that reference.
pub proof fn lemma_gated_head_stays(
    e: Engine,
    scope: Option<ScopeView>,
    ids: Map<Seq<char>, ObjectId>,
    pair: ChangedCommit,
    s: int,
    h: int,
)
    requires
        0 <= s < e.stacks.len(),
        0 <= h < e.stacks[s].heads.len(),
        in_scope(e.stacks[s], scope),
        gated(e.stacks[s].heads, scope, h),
    ensures
        ({
            let head = e.stacks[s].heads[h];
            let after = after_pair(e, scope, ids, pair);
            &&& after.stacks[s].heads[h] == head
            &&& points_to(e.stacks[s].heads, ids, pair.old, h) && head.reference.is_some() ==> {
                &&& forall|k: int|
                    e.edits.len() <= k < after.edits.len() ==> (#[trigger] after.edits[k]).name
                        != head.reference.unwrap()
                &&& forall|k: int|
                    e.records.len() <= k < after.records.len() ==> (#[trigger] after.records[k])
                        != git_record(pair, head.reference.unwrap())
            }
        }),
{
    let head = e.stacks[s].heads[h];
    if points_to(e.stacks[s].heads, ids, pair.old, h) && head.reference.is_some() {
        lemma_pair_moves_plain_references(e, scope, ids, pair);
        lemma_new_records(e, scope, ids, pair);
    }
}

/// Each record that a changed commit adds is about a stack or a head, by its name, or about
/// a plain reference that got an edit.
pub proof fn lemma_new_records(
    e: Engine,
    scope: Option<ScopeView>,
    ids: Map<Seq<char>, ObjectId>,
    pair: ChangedCommit,
)
    ensures
        ({
            let after = after_pair(e, scope, ids, pair);
            &&& after.records.len() >= e.records.len()
            &&& after.records.subrange(0, e.records.len() as int) == e.records
            &&& forall|k: int|
                e.records.len() <= k < after.records.len() ==> {
                    let record = #[trigger] after.records[k];
                    &&& record.old_commit_id == pair.old
                    &&& record.new_commit_id == pair.new
                    &&& forall|name: Seq<u8>|
                        record == git_record(pair, name) ==> exists|j: int|
                            e.edits.len() <= j < after.edits.len() && #[trigger] after.edits[j]
                                == git_edit(pair, name)
                }
        }),
{
    let after = after_pair(e, scope, ids, pair);
    let order = name_order(stack_names(e.stacks));
    let own = stacks_records(e.stacks, order, scope, ids, pair, order.len() as int);
    let kept = edited_names(e, scope, ids, pair);
    lemma_stacks_records_virtual(e.stacks, order, scope, ids, pair, order.len() as int);
    assert forall|k: int| e.records.len() <= k < after.records.len() implies {
        let record = #[trigger] after.records[k];
        &&& record.old_commit_id == pair.old
        &&& record.new_commit_id == pair.new
        &&& forall|name: Seq<u8>|
            record == git_record(pair, name) ==> exists|j: int|
                e.edits.len() <= j < after.edits.len() && #[trigger] after.edits[j] == git_edit(
                    pair,
                    name,
                )
    } by {
        let at = k - e.records.len();
        if at >= own.len() {
            let i = at - own.len();
            assert(after.edits[e.edits.len() + i] == git_edit(pair, kept[i]));
        }
    }
}

/// Every record in the list is about a stack or a head and carries the two commits.
pub open spec fn all_virtual(records: Seq<UpdatedReferenceView>, pair: ChangedCommit) -> bool {
    forall|k: int| 0 <= k < records.len() ==> is_virtual_of(#[trigger] records[k], pair)
}

/// The records of named heads are about heads, by name.
proof fn lemma_head_records_virtual(
    heads: Seq<StackBranchView>,
    scope: Option<ScopeView>,
    ids: Map<Seq<char>, ObjectId>,
    pair: ChangedCommit,
    n: int,
)
    ensures
        all_virtual(head_records(heads, scope, ids, pair, n), pair),
    decreases n,
{
    if n > 0 {
        lemma_head_records_virtual(heads, scope, ids, pair, n - 1);
    }
}

/// The records of stacks are about stacks and heads, by name.
proof fn lemma_stacks_records_virtual(
    stacks: Seq<StackView>,
    order: Seq<usize>,
    scope: Option<ScopeView>,
    ids: Map<Seq<char>, ObjectId>,
    pair: ChangedCommit,
    n: int,
)
    ensures
        all_virtual(stacks_records(stacks, order, scope, ids, pair, n), pair),
    decreases n,
{
    if n > 0 {
        lemma_stacks_records_virtual(stacks, order, scope, ids, pair, n - 1);
        let stack = stacks[order[n - 1] as int];
        lemma_head_records_virtual(stack.heads, scope, ids, pair, stack.heads.len() as int);
    }
}

/// The record is about a stack or a head and carries the two commits of `pair`.
pub open spec fn is_virtual_of(record: UpdatedReferenceView, pair: ChangedCommit) -> bool {
    &&& record.old_commit_id == pair.old
    &&& record.new_commit_id == pair.new
    &&& record.reference is Virtual
}

/// No record for any of the first `n` heads where none of them moves.
proof fn lemma_no_head_moves_no_records(
    heads: Seq<StackBranchView>,
    scope: Option<ScopeView>,
    ids: Map<Seq<char>, ObjectId>,
    pair: ChangedCommit,
    n: int,
)
    requires
        0 <= n <= heads.len(),
        forall|h: int| 0 <= h < heads.len() ==> !points_to(heads, ids, pair.old, h),
    ensures
        head_records(heads, scope, ids, pair, n) == Seq::<UpdatedReferenceView>::empty(),
    decreases n,
{
    if n > 0 {
        lemma_no_head_moves_no_records(heads, scope, ids, pair, n - 1);
    }
}

/// No record for any of the first `n` stacks where nothing in them points to the old commit.
proof fn lemma_nothing_moves_no_records(
    stacks: Seq<StackView>,
    order: Seq<usize>,
    scope: Option<ScopeView>,
    ids: Map<Seq<char>, ObjectId>,
    pair: ChangedCommit,
    n: int,
)
    requires
        0 <= n <= order.len(),
        forall|k: int| 0 <= k < order.len() ==> 0 <= #[trigger] order[k] < stacks.len(),
        nothing_points_to(stacks, scope, ids, pair.old),
    ensures
        stacks_records(stacks, order, scope, ids, pair, n) == Seq::<UpdatedReferenceView>::empty(),
    decreases n,
{
    if n > 0 {
        lemma_nothing_moves_no_records(stacks, order, scope, ids, pair, n - 1);
        let stack = stacks[order[n - 1] as int];
        if in_scope(stack, scope) {
            lemma_no_head_moves_no_records(stack.heads, scope, ids, pair, stack.heads.len() as int);
        }
    }
}

/// In no stack in scope does the head of the stack or a named head point to `old`.
pub open spec fn nothing_points_to(
    stacks: Seq<StackView>,
    scope: Option<ScopeView>,
    ids: Map<Seq<char>, ObjectId>,
    old: ObjectId,
) -> bool {
    forall|s: int|
        0 <= s < stacks.len() && in_scope(#[trigger] stacks[s], scope) ==> stacks[s].head != old
            && forall|h: int|
            0 <= h < stacks[s].heads.len() ==> !points_to(stacks[s].heads, ids, old, h)
}

/// A changed commit whose old commit nothing points to any more changes nothing: applying
/// it leaves the stacks, the plain references, the records and the edits as they are.
pub proof fn lemma_absent_old_changes_nothing(
    e: Engine,
    scope: Option<ScopeView>,
    ids: Map<Seq<char>, ObjectId>,
    pair: ChangedCommit,
)
    requires
        e.stacks.len() <= usize::MAX,
        nothing_points_to(e.stacks, scope, ids, pair.old),
        !e.refs.contains_key(pair.old),
    ensures
        after_pair(e, scope, ids, pair) == e,
{
    let after = after_pair(e, scope, ids, pair);
    let names = stack_names(e.stacks);
    let order = name_order(names);
    assert(is_name_order(names, order)) by {
        lemma_name_order_exists(names);
    }
    lemma_nothing_moves_no_records(e.stacks, order, scope, ids, pair, order.len() as int);
    assert forall|s: int| 0 <= s < e.stacks.len() implies after.stacks[s] == e.stacks[s] by {
        let stack = e.stacks[s];
        if in_scope(stack, scope) {
            assert(after.stacks[s].heads =~= stack.heads);
        }
    }
    assert(after.stacks =~= e.stacks);
    assert(after.refs =~= e.refs);
}

/// Whether the head of the stack is where its newest named head points to. A stack without
/// named heads is settled by default.
pub open spec fn settled(stack: StackView, ids: Map<Seq<char>, ObjectId>) -> bool {
    stack.heads.len() > 0 ==> resolve(stack.heads[0].head, ids) == Some(stack.head)
}

/// A settled stack stays settled: where the head of a stack is the commit of its newest
/// named head before a changed commit is applied, it is so afterwards.
pub proof fn lemma_settled_stays_settled(
    e: Engine,
    scope: Option<ScopeView>,
    ids: Map<Seq<char>, ObjectId>,
    pair: ChangedCommit,
    s: int,
)
    requires
        0 <= s < e.stacks.len(),
        settled(e.stacks[s], ids),
    ensures
        settled(after_pair(e, scope, ids, pair).stacks[s], ids),
{
    lemma_hex_round_trip(pair.new);
}

/// Stacks keep their identifiers: where no two stacks share one before a changed commit is
/// applied, none do afterwards.
pub proof fn lemma_ids_stay_distinct(
    e: Engine,
    scope: Option<ScopeView>,
    ids: Map<Seq<char>, ObjectId>,
    pair: ChangedCommit,
)
    requires
        distinct_ids(e.stacks),
    ensures
        distinct_ids(after_pair(e, scope, ids, pair).stacks),
{
}

/// Whether two lists hold the same stacks but for where their heads point: as many stacks,
/// each with the identifier, the name and the place it had, and with as many named heads
/// under the names they had.
pub open spec fn same_stacks(before: Seq<StackView>, after: Seq<StackView>) -> bool {
    &&& after.len() == before.len()
    &&& forall|s: int|
        0 <= s < before.len() ==> {
            &&& (#[trigger] after[s]).id == before[s].id
            &&& after[s].name == before[s].name
            &&& after[s].in_workspace == before[s].in_workspace
            &&& after[s].heads.len() == before[s].heads.len()
            &&& forall|h: int|
                0 <= h < before[s].heads.len() ==> (#[trigger] after[s].heads[h]).name
                    == before[s].heads[h].name && after[s].heads[h].reference
                    == before[s].heads[h].reference
        }
}

/// However many changed commits are applied, the stacks stay the same stacks: no stack and
/// no named head is added, dropped, renamed or moved to another place.
pub proof fn lemma_rewrite_keeps_stacks(
    e: Engine,
    scope: Option<ScopeView>,
    ids: Map<Seq<char>, ObjectId>,
    pairs: Seq<ChangedCommit>,
    n: int,
)
    requires
        0 <= n <= pairs.len(),
    ensures
        same_stacks(e.stacks, after_pairs(e, scope, ids, pairs, n).stacks),
        distinct_ids(e.stacks) ==> distinct_ids(after_pairs(e, scope, ids, pairs, n).stacks),
    decreases n,
{
    if n > 0 {
        lemma_rewrite_keeps_stacks(e, scope, ids, pairs, n - 1);
    }
}

} // verus!
