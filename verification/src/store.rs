//! A store as the resolver sees it, and what resolving against it amounts to.
//!
//! A [`Store`] stands for an object store that gives the same answer to the same question
//! every time. It is only spoken of, never run: it says what the answers to a resolver's
//! questions are, so that the mapping a resolver ends with can be stated, as [`resolved`],
//! without the resolver.

use crate::change_ids::map_of;
use crate::ids::ObjectId;
use crate::resolver::{
    accepted, entries_of, found, learn, nothing_known, pending, reachable, target_tip,
    walk_entries, AnswerView, LookupView, Plan, ResolverView, VisitedView,
};
use vstd::prelude::*;

verus! {

/// What a store answers.
pub struct Store {
    /// The commit that a reference points to, if it exists and points to one.
    pub tip_of: spec_fn(Seq<char>) -> Option<ObjectId>,
    /// The parents of a commit.
    pub parents_of: spec_fn(ObjectId) -> Seq<ObjectId>,
    /// The merge base of several commits.
    pub octopus_base: spec_fn(Seq<ObjectId>) -> ObjectId,
    /// The merge base of two commits.
    pub merge_base: spec_fn(ObjectId, ObjectId) -> ObjectId,
    /// The commits of a breadth-first walk from the first commit down to the second.
    pub ancestors: spec_fn(ObjectId, ObjectId) -> Seq<VisitedView>,
}

/// The store's answer to a question.
pub open spec fn answer_of(store: Store, lookup: LookupView) -> AnswerView {
    match lookup {
        LookupView::TargetTip { branch } => AnswerView::TargetTip((store.tip_of)(branch)),
        LookupView::Parents { commit } => AnswerView::Parents((store.parents_of)(commit)),
        LookupView::OctopusBase { commits } => AnswerView::Base((store.octopus_base)(commits)),
        LookupView::MergeBase { tip, target } => AnswerView::Base((store.merge_base)(tip, target)),
        LookupView::Ancestors { tip, boundary } => AnswerView::Ancestors(
            (store.ancestors)(tip, boundary),
        ),
    }
}

/// The tip of the configured target in the store, `None` without a target.
pub open spec fn tip_in(plan: Plan, store: Store) -> Option<ObjectId> {
    match plan.target {
        Some(branch) => (store.tip_of)(branch),
        None => None,
    }
}

/// The commit at which the walk of the stack with the head `tip` stops: the merge base of
/// the head and the tip of the target, if the target has a tip; else the merge base of the
/// parents of the workspace commit, if it has two or more; else none, and nothing is walked.
pub open spec fn boundary_of(plan: Plan, store: Store, tip: ObjectId) -> Option<ObjectId> {
    match tip_in(plan, store) {
        Some(target) => Some((store.merge_base)(tip, target)),
        None => match plan.workspace_tip {
            Some(commit) => if (store.parents_of)(commit).len() >= 2 {
                Some((store.octopus_base)((store.parents_of)(commit)))
            } else {
                None
            },
            None => None,
        },
    }
}

/// The entries that the walk of one stack gives.
pub open spec fn stack_entries(plan: Plan, store: Store, tip: ObjectId) -> Seq<
    (Seq<char>, ObjectId),
> {
    match boundary_of(plan, store, tip) {
        Some(boundary) => walk_entries(
            (store.ancestors)(tip, boundary),
            (store.ancestors)(tip, boundary).len() as int,
        ),
        None => Seq::empty(),
    }
}

/// The entries that the walks of the first `n` stacks give, stack after stack.
pub open spec fn resolved_entries(plan: Plan, store: Store, n: int) -> Seq<(Seq<char>, ObjectId)>
    decreases n,
{
    if n <= 0 {
        Seq::empty()
    } else {
        resolved_entries(plan, store, n - 1) + stack_entries(plan, store, plan.tips[n - 1])
    }
}

/// The mapping from change identity to commit for a plan and a store.
pub open spec fn resolved(plan: Plan, store: Store) -> Map<Seq<char>, ObjectId> {
    map_of(resolved_entries(plan, store, plan.tips.len() as int))
}

/// Everything the resolver knows is what the store says.
pub open spec fn agrees(v: ResolverView, store: Store) -> bool {
    let k = v.known;
    &&& k.target_tip.is_some() ==> v.plan.target.is_some() && k.target_tip.unwrap() == (
    store.tip_of)(v.plan.target.unwrap())
    &&& k.parents.is_some() ==> v.plan.workspace_tip.is_some() && k.parents.unwrap() == (
    store.parents_of)(v.plan.workspace_tip.unwrap())
    &&& k.shared_base.is_some() ==> k.parents.is_some() && k.shared_base.unwrap() == (
    store.octopus_base)(k.parents.unwrap())
    &&& k.base.is_some() ==> target_tip(v).is_some() && k.walks.len() < v.plan.tips.len()
        && k.base.unwrap() == (store.merge_base)(
        v.plan.tips[k.walks.len() as int],
        target_tip(v).unwrap(),
    )
    &&& forall|i: int|
        0 <= i < k.walks.len() ==> {
            &&& boundary_of(v.plan, store, v.plan.tips[i]).is_some()
            &&& #[trigger] k.walks[i] == (store.ancestors)(
                v.plan.tips[i],
                boundary_of(v.plan, store, v.plan.tips[i]).unwrap(),
            )
        }
}

/// A resolver that has learned nothing agrees with every store.
pub proof fn lemma_start_agrees(v: ResolverView, store: Store)
    requires
        v.known == nothing_known(),
    ensures
        reachable(v),
        agrees(v, store),
{
}

/// Learning the store's answer to the pending question keeps the resolver in agreement with
/// the store, and adds to what it knows.
pub proof fn lemma_learn_agrees(v: ResolverView, store: Store)
    requires
        reachable(v),
        agrees(v, store),
        pending(v).is_some(),
    ensures
        accepted(v, answer_of(store, pending(v).unwrap())),
        reachable(learn(v, answer_of(store, pending(v).unwrap()))),
        agrees(learn(v, answer_of(store, pending(v).unwrap())), store),
        knowledge(learn(v, answer_of(store, pending(v).unwrap()))) > knowledge(v),
{
}

/// How much is known: one for each answer that is kept, two for each walk, since a walk
/// uses up the merge base that was asked for before it.
pub open spec fn knowledge(v: ResolverView) -> int {
    (if v.known.target_tip.is_some() {
        1int
    } else {
        0int
    }) + (if v.known.parents.is_some() {
        1int
    } else {
        0int
    }) + (if v.known.shared_base.is_some() {
        1int
    } else {
        0int
    }) + (if v.known.base.is_some() {
        1int
    } else {
        0int
    }) + 2 * v.known.walks.len()
}

/// What can be known is bounded, so the questions come to an end.
pub proof fn lemma_knowledge_bounded(v: ResolverView)
    requires
        reachable(v),
    ensures
        0 <= knowledge(v) <= 3 + 2 * v.plan.tips.len(),
{
}

/// When nothing is pending, the mapping that was found is the one that the plan and the
/// store determine.
pub proof fn lemma_done_is_resolved(v: ResolverView, store: Store)
    requires
        reachable(v),
        agrees(v, store),
        pending(v).is_none(),
    ensures
        found(v) == resolved(v.plan, store),
{
    let n = v.plan.tips.len() as int;
    if v.known.walks.len() == n {
        lemma_entries_agree(v, store, n);
    } else {
        // nothing was walked, and no stack has a boundary
        lemma_no_boundary_no_entries(v.plan, store, n);
    }
}

/// The entries of the walks that the resolver was told of are those of the store's walks.
proof fn lemma_entries_agree(v: ResolverView, store: Store, n: int)
    requires
        agrees(v, store),
        0 <= n <= v.known.walks.len(),
        v.known.walks.len() <= v.plan.tips.len(),
    ensures
        entries_of(v.known.walks, n) == resolved_entries(v.plan, store, n),
    decreases n,
{
    if n > 0 {
        lemma_entries_agree(v, store, n - 1);
    }
}

/// Where no stack has a boundary, there are no entries.
proof fn lemma_no_boundary_no_entries(plan: Plan, store: Store, n: int)
    requires
        0 <= n <= plan.tips.len(),
        forall|tip: ObjectId| boundary_of(plan, store, tip).is_none(),
    ensures
        resolved_entries(plan, store, n) == Seq::<(Seq<char>, ObjectId)>::empty(),
    decreases n,
{
    if n > 0 {
        lemma_no_boundary_no_entries(plan, store, n - 1);
    }
}

/// What a resolver knows after it has asked the store what is pending, and learned the
/// answer, up to `rounds` times.
pub open spec fn asked(v: ResolverView, store: Store, rounds: nat) -> ResolverView
    decreases rounds,
{
    if rounds == 0 || pending(v).is_none() {
        v
    } else {
        asked(learn(v, answer_of(store, pending(v).unwrap())), store, (rounds - 1) as nat)
    }
}

/// Asking the store resolves: a resolver that asks what is pending and learns the store's
/// answer comes to an end within three rounds and two for each stack, and has then found
/// the mapping that the plan and the store determine.
pub proof fn lemma_asking_resolves(v: ResolverView, store: Store, rounds: nat)
    requires
        reachable(v),
        agrees(v, store),
        rounds >= 3 + 2 * v.plan.tips.len() - knowledge(v),
    ensures
        pending(asked(v, store, rounds)).is_none(),
        found(asked(v, store, rounds)) == resolved(v.plan, store),
    decreases rounds,
{
    if pending(v).is_none() {
        lemma_done_is_resolved(v, store);
    } else {
        let next = learn(v, answer_of(store, pending(v).unwrap()));
        lemma_learn_agrees(v, store);
        lemma_knowledge_bounded(next);
        lemma_asking_resolves(next, store, (rounds - 1) as nat);
    }
}

/// Resolving again gives the same mapping: two resolvers for the same plan that have both
/// come to an end against the same store have found the same.
pub proof fn lemma_resolving_again_gives_the_same(a: ResolverView, b: ResolverView, store: Store)
    requires
        a.plan == b.plan,
        reachable(a),
        reachable(b),
        agrees(a, store),
        agrees(b, store),
        pending(a).is_none(),
        pending(b).is_none(),
    ensures
        found(a) == found(b),
{
    lemma_done_is_resolved(a, store);
    lemma_done_is_resolved(b, store);
}

} // verus!
