//! Finding the commit that currently carries each change identity.
//!
//! The commits of every stack in the workspace are walked from the head of the stack down
//! to a boundary, and each commit that carries a change identity is entered into the
//! mapping. The walking is the store's work. A [`Resolver`] decides what to ask of the store
//! next, from what it has learned so far, and gathers the answers: [`pending`] is the
//! question, [`learn`] is what an answer adds. Whoever holds the store asks and answers
//! until nothing is pending.
//!
//! What the result is, for a store that answers every question the same way each time, is
//! [`resolved`]; that a resolver arrives there is proved in this file.

use crate::change_ids::{map_of, ChangeIds};
use crate::ids::ObjectId;
use crate::order::{is_name_order, name_order, stack_names, stacks_by_name};
use crate::state::{StackView, VirtualBranchesState};
use vstd::prelude::*;

verus! {

/// A commit that a walk came by, with the change identity it carries, if any.
#[derive(Clone, Debug, PartialEq, Eq)]
pub struct Visited {
    pub id: ObjectId,
    pub change_id: Option<String>,
}

/// A [`Visited`] as a mathematical value.
pub struct VisitedView {
    pub id: ObjectId,
    pub change_id: Option<Seq<char>>,
}

impl View for Visited {
    type V = VisitedView;

    open spec fn view(&self) -> VisitedView {
        VisitedView {
            id: self.id,
            change_id: match self.change_id {
                Some(change) => Some(change@),
                None => None,
            },
        }
    }
}

impl DeepView for Visited {
    type V = VisitedView;

    open spec fn deep_view(&self) -> VisitedView {
        self@
    }
}

/// A question to the store.
#[derive(Clone, Debug, PartialEq, Eq)]
pub enum Lookup {
    /// Which commit does the reference of the upstream target point to, if it exists?
    TargetTip { branch: String },
    /// What are the parents of the workspace commit?
    Parents { commit: ObjectId },
    /// What is the merge base of all these commits?
    OctopusBase { commits: Vec<ObjectId> },
    /// What is the merge base of the head of a stack and the tip of the target?
    MergeBase { tip: ObjectId, target: ObjectId },
    /// Which commits does a breadth-first walk from `tip` down to `boundary` come by?
    Ancestors { tip: ObjectId, boundary: ObjectId },
}

/// A [`Lookup`] as a mathematical value.
pub enum LookupView {
    TargetTip { branch: Seq<char> },
    Parents { commit: ObjectId },
    OctopusBase { commits: Seq<ObjectId> },
    MergeBase { tip: ObjectId, target: ObjectId },
    Ancestors { tip: ObjectId, boundary: ObjectId },
}

impl View for Lookup {
    type V = LookupView;

    open spec fn view(&self) -> LookupView {
        match self {
            Lookup::TargetTip { branch } => LookupView::TargetTip { branch: branch@ },
            Lookup::Parents { commit } => LookupView::Parents { commit: *commit },
            Lookup::OctopusBase { commits } => LookupView::OctopusBase { commits: commits@ },
            Lookup::MergeBase { tip, target } => LookupView::MergeBase {
                tip: *tip,
                target: *target,
            },
            Lookup::Ancestors { tip, boundary } => LookupView::Ancestors {
                tip: *tip,
                boundary: *boundary,
            },
        }
    }
}

/// The view of an optional question.
pub open spec fn lookup_view(lookup: Option<Lookup>) -> Option<LookupView> {
    match lookup {
        Some(l) => Some(l@),
        None => None,
    }
}

/// What the store says to a question.
#[derive(Clone, Debug, PartialEq, Eq)]
pub enum Answer {
    /// To `TargetTip`: the commit, or `None` if the reference does not point to one.
    TargetTip(Option<ObjectId>),
    /// To `Parents`.
    Parents(Vec<ObjectId>),
    /// To `OctopusBase` and to `MergeBase`.
    Base(ObjectId),
    /// To `Ancestors`: the commits in the order of the walk.
    Ancestors(Vec<Visited>),
}

/// A [`Answer`] as a mathematical value.
pub enum AnswerView {
    TargetTip(Option<ObjectId>),
    Parents(Seq<ObjectId>),
    Base(ObjectId),
    Ancestors(Seq<VisitedView>),
}

impl View for Answer {
    type V = AnswerView;

    open spec fn view(&self) -> AnswerView {
        match self {
            Answer::TargetTip(tip) => AnswerView::TargetTip(*tip),
            Answer::Parents(parents) => AnswerView::Parents(parents@),
            Answer::Base(base) => AnswerView::Base(*base),
            Answer::Ancestors(visited) => AnswerView::Ancestors(visited.deep_view()),
        }
    }
}

/// An answer that is none to the pending question.
#[derive(Clone, Copy, Debug, PartialEq, Eq)]
pub enum ResolveError {
    /// Nothing was asked, or something else was.
    UnexpectedAnswer,
}

/// What is to be resolved: the upstream target if one is configured, the workspace commit
/// if one is given, and the heads of the stacks in the workspace, in processing order.
pub struct Plan {
    pub target: Option<Seq<char>>,
    pub workspace_tip: Option<ObjectId>,
    pub tips: Seq<ObjectId>,
}

/// What has been learned from the store so far.
pub struct Known {
    /// The answer to `TargetTip`.
    pub target_tip: Option<Option<ObjectId>>,
    /// The answer to `Parents`.
    pub parents: Option<Seq<ObjectId>>,
    /// The answer to `OctopusBase`.
    pub shared_base: Option<ObjectId>,
    /// The answer to `MergeBase` for the stack that is walked next.
    pub base: Option<ObjectId>,
    /// The answers to `Ancestors`, one for each stack walked so far.
    pub walks: Seq<Seq<VisitedView>>,
}

/// A [`Resolver`] as a mathematical value.
pub struct ResolverView {
    pub plan: Plan,
    pub known: Known,
}

/// The heads of those of the first `n` stacks in processing order that are in the workspace.
pub open spec fn workspace_tips(stacks: Seq<StackView>, order: Seq<usize>, n: int) -> Seq<ObjectId>
    decreases n,
{
    if n <= 0 {
        Seq::empty()
    } else if stacks[order[n - 1] as int].in_workspace {
        workspace_tips(stacks, order, n - 1).push(stacks[order[n - 1] as int].head)
    } else {
        workspace_tips(stacks, order, n - 1)
    }
}

/// The plan for a state and an optional workspace commit.
pub open spec fn plan_of(state: &VirtualBranchesState, workspace_tip: Option<ObjectId>) -> Plan {
    let order = name_order(stack_names(state@.branches));
    Plan {
        target: state@.default_target,
        workspace_tip,
        tips: workspace_tips(state@.branches, order, order.len() as int),
    }
}

/// Nothing learned yet.
pub open spec fn nothing_known() -> Known {
    Known { target_tip: None, parents: None, shared_base: None, base: None, walks: Seq::empty() }
}

/// Whether it is settled what the target's reference points to: no target is configured, or
/// the store has said.
pub open spec fn target_settled(v: ResolverView) -> bool {
    v.plan.target.is_none() || v.known.target_tip.is_some()
}

/// The tip of the target, once that is settled: `None` without a target, and where the
/// target's reference points to no commit.
pub open spec fn target_tip(v: ResolverView) -> Option<ObjectId> {
    if v.plan.target.is_some() && v.known.target_tip.is_some() {
        v.known.target_tip.unwrap()
    } else {
        None
    }
}

/// The question to ask next, `None` when the mapping is complete.
///
/// First the tip of the target, if one is configured. With a tip, each stack is walked down
/// to its merge base with that tip, which is asked for first. Without a tip, the parents of
/// the workspace commit are asked for; if there are two or more, their merge base is asked
/// for, and each stack is walked down to it. Without a tip and without such a merge base
/// nothing is walked.
pub open spec fn pending(v: ResolverView) -> Option<LookupView> {
    let walked = v.known.walks.len() as int;
    if !target_settled(v) {
        Some(LookupView::TargetTip { branch: v.plan.target.unwrap() })
    } else if target_tip(v).is_some() {
        if walked >= v.plan.tips.len() {
            None
        } else if v.known.base.is_none() {
            Some(LookupView::MergeBase { tip: v.plan.tips[walked], target: target_tip(v).unwrap() })
        } else {
            Some(
                LookupView::Ancestors { tip: v.plan.tips[walked], boundary: v.known.base.unwrap() },
            )
        }
    } else if v.plan.workspace_tip.is_none() {
        None
    } else if v.known.parents.is_none() {
        Some(LookupView::Parents { commit: v.plan.workspace_tip.unwrap() })
    } else if v.known.parents.unwrap().len() < 2 {
        None
    } else if v.known.shared_base.is_none() {
        Some(LookupView::OctopusBase { commits: v.known.parents.unwrap() })
    } else if walked >= v.plan.tips.len() {
        None
    } else {
        Some(
            LookupView::Ancestors {
                tip: v.plan.tips[walked],
                boundary: v.known.shared_base.unwrap(),
            },
        )
    }
}

/// Whether the answer is one to the question.
pub open spec fn fits(lookup: LookupView, answer: AnswerView) -> bool {
    match lookup {
        LookupView::TargetTip { .. } => answer is TargetTip,
        LookupView::Parents { .. } => answer is Parents,
        LookupView::OctopusBase { .. } => answer is Base,
        LookupView::MergeBase { .. } => answer is Base,
        LookupView::Ancestors { .. } => answer is Ancestors,
    }
}

/// Whether the answer is one to the pending question.
pub open spec fn accepted(v: ResolverView, answer: AnswerView) -> bool {
    pending(v).is_some() && fits(pending(v).unwrap(), answer)
}

/// What is known after the answer to the pending question. An answer that does not fit
/// adds nothing.
pub open spec fn learn(v: ResolverView, answer: AnswerView) -> ResolverView {
    if !accepted(v, answer) {
        v
    } else {
        let known = match (pending(v).unwrap(), answer) {
            (LookupView::TargetTip { .. }, AnswerView::TargetTip(tip)) => Known {
                target_tip: Some(tip),
                ..v.known
            },
            (LookupView::Parents { .. }, AnswerView::Parents(parents)) => Known {
                parents: Some(parents),
                ..v.known
            },
            (LookupView::OctopusBase { .. }, AnswerView::Base(base)) => Known {
                shared_base: Some(base),
                ..v.known
            },
            (LookupView::MergeBase { .. }, AnswerView::Base(base)) => Known {
                base: Some(base),
                ..v.known
            },
            (LookupView::Ancestors { .. }, AnswerView::Ancestors(visited)) => Known {
                base: None,
                walks: v.known.walks.push(visited),
                ..v.known
            },
            _ => v.known,
        };
        ResolverView { plan: v.plan, known }
    }
}

/// The entries that the first `n` commits of a walk give: one for each commit that carries
/// a change identity, in the order of the walk.
pub open spec fn walk_entries(visited: Seq<VisitedView>, n: int) -> Seq<(Seq<char>, ObjectId)>
    decreases n,
{
    if n <= 0 {
        Seq::empty()
    } else {
        match visited[n - 1].change_id {
            Some(change) => walk_entries(visited, n - 1).push((change, visited[n - 1].id)),
            None => walk_entries(visited, n - 1),
        }
    }
}

/// The entries that the first `n` walks give, walk after walk.
pub open spec fn entries_of(walks: Seq<Seq<VisitedView>>, n: int) -> Seq<(Seq<char>, ObjectId)>
    decreases n,
{
    if n <= 0 {
        Seq::empty()
    } else {
        entries_of(walks, n - 1) + walk_entries(walks[n - 1], walks[n - 1].len() as int)
    }
}

/// The mapping that was found so far. Where two commits carry the same change identity, the
/// one that was come by later is the one it maps to.
pub open spec fn found(v: ResolverView) -> Map<Seq<char>, ObjectId> {
    map_of(entries_of(v.known.walks, v.known.walks.len() as int))
}

/// What can be known at all: each answer is there only if its question was asked.
pub open spec fn reachable(v: ResolverView) -> bool {
    let k = v.known;
    &&& k.walks.len() <= v.plan.tips.len()
    &&& k.target_tip.is_some() ==> v.plan.target.is_some()
    &&& k.parents.is_some() ==> target_settled(v) && target_tip(v).is_none()
        && v.plan.workspace_tip.is_some()
    &&& k.shared_base.is_some() ==> k.parents.is_some() && k.parents.unwrap().len() >= 2
    &&& k.base.is_some() ==> target_settled(v) && target_tip(v).is_some() && k.walks.len()
        < v.plan.tips.len()
    &&& k.walks.len() > 0 ==> target_settled(v) && (target_tip(v).is_some()
        || k.shared_base.is_some())
}

/// Gathers what the store says, and knows what to ask next.
pub struct Resolver {
    target: Option<String>,
    workspace_tip: Option<ObjectId>,
    tips: Vec<ObjectId>,
    target_tip: Option<Option<ObjectId>>,
    parents: Option<Vec<ObjectId>>,
    shared_base: Option<ObjectId>,
    base: Option<ObjectId>,
    walked: usize,
    found: ChangeIds,
    walks: Ghost<Seq<Seq<VisitedView>>>,
}

impl View for Resolver {
    type V = ResolverView;

    closed spec fn view(&self) -> ResolverView {
        ResolverView {
            plan: Plan {
                target: match self.target {
                    Some(branch) => Some(branch@),
                    None => None,
                },
                workspace_tip: self.workspace_tip,
                tips: self.tips@,
            },
            known: Known {
                target_tip: self.target_tip,
                parents: match self.parents {
                    Some(parents) => Some(parents@),
                    None => None,
                },
                shared_base: self.shared_base,
                base: self.base,
                walks: self.walks@,
            },
        }
    }
}

impl Resolver {
    /// What holds of every resolver: it has gathered the entries of the walks it was told
    /// of, and knows nothing that it could not have asked for.
    pub closed spec fn wf(&self) -> bool {
        &&& self.walked == self.walks@.len()
        &&& self.found.entries() == entries_of(self.walks@, self.walks@.len() as int)
        &&& reachable(self@)
    }

    /// A resolver knows nothing that it could not have asked for.
    pub proof fn lemma_wf_reachable(&self)
        requires
            self.wf(),
        ensures
            reachable(self@),
    {
    }

    /// A resolver for the stacks of `state` that are in the workspace, which has learned
    /// nothing yet.
    pub fn start(state: &VirtualBranchesState, workspace_tip: Option<ObjectId>) -> (r: Resolver)
        ensures
            r.wf(),
            r@.plan == plan_of(state, workspace_tip),
            r@.known == nothing_known(),
    {
        let order = stacks_by_name(&state.branches);
        let ghost stacks = state@.branches;
        let mut tips: Vec<ObjectId> = Vec::new();
        let mut k: usize = 0;
        while k < order.len()
            invariant
                k <= order.len(),
                stacks == state@.branches,
                is_name_order(stack_names(stacks), order@),
                tips@ == workspace_tips(stacks, order@, k as int),
            decreases order.len() - k,
        {
            let stack = &state.branches[order[k]];
            if stack.in_workspace {
                tips.push(stack.head);
            }
            k += 1;
        }
        let target = match &state.default_target {
            Some(target) => Some(target.branch.clone()),
            None => None,
        };
        Resolver {
            target,
            workspace_tip,
            tips,
            target_tip: None,
            parents: None,
            shared_base: None,
            base: None,
            walked: 0,
            found: ChangeIds::new(),
            walks: Ghost(Seq::empty()),
        }
    }

    /// The question to ask the store next, `None` when the mapping is complete.
    pub fn next(&self) -> (r: Option<Lookup>)
        requires
            self.wf(),
        ensures
            lookup_view(r) == pending(self@),
    {
        let tip = match (&self.target, self.target_tip) {
            (Some(branch), None) => {
                return Some(Lookup::TargetTip { branch: branch.clone() });
            },
            (Some(_), Some(tip)) => tip,
            (None, _) => None,
        };
        match tip {
            Some(target) => {
                if self.walked >= self.tips.len() {
                    None
                } else {
                    match self.base {
                        None => Some(Lookup::MergeBase { tip: self.tips[self.walked], target }),
                        Some(boundary) => Some(
                            Lookup::Ancestors { tip: self.tips[self.walked], boundary },
                        ),
                    }
                }
            },
            None => match self.workspace_tip {
                None => None,
                Some(commit) => match &self.parents {
                    None => Some(Lookup::Parents { commit }),
                    Some(parents) => {
                        if parents.len() < 2 {
                            None
                        } else {
                            match self.shared_base {
                                None => Some(Lookup::OctopusBase { commits: parents.clone() }),
                                Some(boundary) => {
                                    if self.walked >= self.tips.len() {
                                        None
                                    } else {
                                        Some(
                                            Lookup::Ancestors {
                                                tip: self.tips[self.walked],
                                                boundary,
                                            },
                                        )
                                    }
                                },
                            }
                        }
                    },
                },
            },
        }
    }

    /// Takes the store's answer to the pending question. An answer that does not fit the
    /// question, or comes when nothing is pending, is refused and changes nothing.
    pub fn answer(&mut self, answer: Answer) -> (r: Result<(), ResolveError>)
        requires
            old(self).wf(),
        ensures
            final(self).wf(),
            r.is_ok() == accepted(old(self)@, answer@),
            final(self)@ == learn(old(self)@, answer@),
    {
        let pending = self.next();
        match (pending, answer) {
            (Some(Lookup::TargetTip { .. }), Answer::TargetTip(tip)) => {
                self.target_tip = Some(tip);
                Ok(())
            },
            (Some(Lookup::Parents { .. }), Answer::Parents(parents)) => {
                self.parents = Some(parents);
                Ok(())
            },
            (Some(Lookup::OctopusBase { .. }), Answer::Base(base)) => {
                self.shared_base = Some(base);
                Ok(())
            },
            (Some(Lookup::MergeBase { .. }), Answer::Base(base)) => {
                self.base = Some(base);
                Ok(())
            },
            (Some(Lookup::Ancestors { .. }), Answer::Ancestors(visited)) => {
                let ghost before = self.found.entries();
                let mut i: usize = 0;
                while i < visited.len()
                    invariant
                        i <= visited.len(),
                        self.found.entries() == before + walk_entries(
                            visited.deep_view(),
                            i as int,
                        ),
                        self.target == old(self).target,
                        self.workspace_tip == old(self).workspace_tip,
                        self.tips == old(self).tips,
                        self.target_tip == old(self).target_tip,
                        self.parents == old(self).parents,
                        self.shared_base == old(self).shared_base,
                        self.base == old(self).base,
                        self.walked == old(self).walked,
                        self.walked < self.tips.len(),
                        self.walks == old(self).walks,
                    decreases visited.len() - i,
                {
                    match &visited[i].change_id {
                        Some(change) => {
                            self.found.insert(change.clone(), visited[i].id);
                        },
                        None => {},
                    }
                    i += 1;
                }
                self.base = None;
                self.walked = self.walked + 1;
                self.walks = Ghost(self.walks@.push(visited.deep_view()));
                proof {
                    let walks = self.walks@;
                    lemma_entries_of_prefix(walks, old(self).walks@, old(self).walks@.len() as int);
                }
                Ok(())
            },
            _ => Err(ResolveError::UnexpectedAnswer),
        }
    }

    /// The mapping, once nothing is pending; `None` before that.
    pub fn finish(self) -> (r: Option<ChangeIds>)
        requires
            self.wf(),
        ensures
            r.is_some() == pending(self@).is_none(),
            r matches Some(ids) ==> ids@ == found(self@),
    {
        match self.next() {
            Some(_) => None,
            None => Some(self.found),
        }
    }
}

/// The entries of the first `n` walks depend on those walks alone.
proof fn lemma_entries_of_prefix(a: Seq<Seq<VisitedView>>, b: Seq<Seq<VisitedView>>, n: int)
    requires
        0 <= n <= a.len(),
        n <= b.len(),
        forall|k: int| 0 <= k < n ==> a[k] == b[k],
    ensures
        entries_of(a, n) == entries_of(b, n),
    decreases n,
{
    if n > 0 {
        lemma_entries_of_prefix(a, b, n - 1);
    }
}

} // verus!
