use stack_rewrite::change_ids::ChangeIds;
use stack_rewrite::ids::ObjectId;
use stack_rewrite::resolver::{Answer, Lookup, ResolveError, Resolver, Visited};
use stack_rewrite::state::{Stack, StackId, Target, VirtualBranchesState};

fn oid(byte: u8) -> ObjectId {
    ObjectId { bytes: [byte; 20] }
}

fn stack(id: u128, name: &str, head: ObjectId, in_workspace: bool) -> Stack {
    Stack {
        id: StackId { value: id },
        name: name.to_string(),
        head,
        tree: oid(200),
        in_workspace,
        heads: vec![],
    }
}

fn seen(byte: u8, change: Option<&str>) -> Visited {
    Visited { id: oid(byte), change_id: change.map(|c| c.to_string()) }
}

fn with_target(branches: Vec<Stack>) -> VirtualBranchesState {
    VirtualBranchesState {
        default_target: Some(Target { branch: "refs/remotes/origin/master".to_string() }),
        branches,
    }
}

fn without_target(branches: Vec<Stack>) -> VirtualBranchesState {
    VirtualBranchesState { default_target: None, branches }
}

/// A store that answers from fixed values, and says what it was asked.
fn answer(lookup: &Lookup) -> Answer {
    match lookup {
        Lookup::TargetTip { branch } => {
            assert_eq!(branch, "refs/remotes/origin/master");
            Answer::TargetTip(Some(oid(100)))
        }
        Lookup::Parents { .. } => Answer::Parents(vec![oid(10), oid(20)]),
        Lookup::OctopusBase { .. } => Answer::Base(oid(99)),
        Lookup::MergeBase { tip, .. } => Answer::Base(oid(tip.bytes[0] + 1)),
        Lookup::Ancestors { tip, .. } => match tip.bytes[0] {
            10 => Answer::Ancestors(vec![
                seen(10, Some("change-top")),
                seen(9, None),
                seen(8, Some("change-shared")),
            ]),
            20 => Answer::Ancestors(vec![seen(20, Some("change-shared")), seen(19, Some("change-b"))]),
            _ => Answer::Ancestors(vec![]),
        },
    }
}

fn run(state: &VirtualBranchesState, workspace_tip: Option<ObjectId>) -> (Vec<Lookup>, ChangeIds) {
    let mut resolver = Resolver::start(state, workspace_tip);
    let mut asked = Vec::new();
    while let Some(lookup) = resolver.next() {
        assert!(asked.len() < 100);
        resolver.answer(answer(&lookup)).unwrap();
        asked.push(lookup);
    }
    (asked, resolver.finish().unwrap())
}

#[test]
fn with_a_target_each_stack_is_walked_down_to_its_merge_base() {
    let state = with_target(vec![
        stack(1, "zeta", oid(20), true),
        stack(2, "alpha", oid(10), true),
        stack(3, "not applied", oid(30), false),
    ]);
    let (asked, ids) = run(&state, Some(oid(50)));
    assert_eq!(
        asked,
        vec![
            Lookup::TargetTip { branch: "refs/remotes/origin/master".to_string() },
            Lookup::MergeBase { tip: oid(10), target: oid(100) },
            Lookup::Ancestors { tip: oid(10), boundary: oid(11) },
            Lookup::MergeBase { tip: oid(20), target: oid(100) },
            Lookup::Ancestors { tip: oid(20), boundary: oid(21) },
        ]
    );
    assert_eq!(ids.get(&"change-top".to_string()), Some(oid(10)));
    assert_eq!(ids.get(&"change-b".to_string()), Some(oid(19)));
    // both stacks carry it; the stack that is walked later wins
    assert_eq!(ids.get(&"change-shared".to_string()), Some(oid(20)));
    assert_eq!(ids.get(&"unknown".to_string()), None);
    assert_eq!(ids.entry_count(), 4);
}

#[test]
fn without_a_target_the_parents_of_the_workspace_commit_give_the_boundary() {
    let state = without_target(vec![stack(1, "b", oid(20), true), stack(2, "a", oid(10), true)]);
    let (asked, ids) = run(&state, Some(oid(50)));
    assert_eq!(
        asked,
        vec![
            Lookup::Parents { commit: oid(50) },
            Lookup::OctopusBase { commits: vec![oid(10), oid(20)] },
            Lookup::Ancestors { tip: oid(10), boundary: oid(99) },
            Lookup::Ancestors { tip: oid(20), boundary: oid(99) },
        ]
    );
    assert_eq!(ids.get(&"change-shared".to_string()), Some(oid(20)));
    assert_eq!(ids.get(&"change-top".to_string()), Some(oid(10)));
}

#[test]
fn without_target_and_workspace_commit_nothing_is_asked() {
    let state = without_target(vec![stack(1, "a", oid(10), true)]);
    let (asked, ids) = run(&state, None);
    assert_eq!(asked, vec![]);
    assert_eq!(ids.entry_count(), 0);
    assert_eq!(ids.get(&"change-top".to_string()), None);
}

#[test]
fn workspace_commit_with_one_parent_gives_no_boundary() {
    let state = without_target(vec![stack(1, "a", oid(10), true)]);
    let mut resolver = Resolver::start(&state, Some(oid(50)));
    assert_eq!(resolver.next(), Some(Lookup::Parents { commit: oid(50) }));
    assert_eq!(resolver.answer(Answer::Parents(vec![oid(10)])), Ok(()));
    assert_eq!(resolver.next(), None);
    assert_eq!(resolver.finish().unwrap().entry_count(), 0);
}

#[test]
fn target_without_a_tip_falls_back_to_the_workspace_commit() {
    let state = with_target(vec![stack(1, "a", oid(10), true)]);
    let mut resolver = Resolver::start(&state, Some(oid(50)));
    assert_eq!(
        resolver.next(),
        Some(Lookup::TargetTip { branch: "refs/remotes/origin/master".to_string() })
    );
    assert_eq!(resolver.answer(Answer::TargetTip(None)), Ok(()));
    assert_eq!(resolver.next(), Some(Lookup::Parents { commit: oid(50) }));
    assert_eq!(resolver.answer(Answer::Parents(vec![oid(1), oid(2), oid(3)])), Ok(()));
    assert_eq!(
        resolver.next(),
        Some(Lookup::OctopusBase { commits: vec![oid(1), oid(2), oid(3)] })
    );
    assert_eq!(resolver.answer(Answer::Base(oid(7))), Ok(()));
    assert_eq!(resolver.next(), Some(Lookup::Ancestors { tip: oid(10), boundary: oid(7) }));
    assert_eq!(resolver.answer(Answer::Ancestors(vec![seen(10, Some("c"))])), Ok(()));
    assert_eq!(resolver.next(), None);
    assert_eq!(resolver.finish().unwrap().get(&"c".to_string()), Some(oid(10)));
}

#[test]
fn answer_that_does_not_fit_is_refused_and_changes_nothing() {
    let state = with_target(vec![stack(1, "a", oid(10), true)]);
    let mut resolver = Resolver::start(&state, None);
    let first = resolver.next();
    assert_eq!(resolver.answer(Answer::Base(oid(1))), Err(ResolveError::UnexpectedAnswer));
    assert_eq!(resolver.answer(Answer::Parents(vec![])), Err(ResolveError::UnexpectedAnswer));
    assert_eq!(resolver.answer(Answer::Ancestors(vec![])), Err(ResolveError::UnexpectedAnswer));
    assert_eq!(resolver.next(), first);
    assert_eq!(resolver.answer(Answer::TargetTip(Some(oid(100)))), Ok(()));
    assert_eq!(resolver.answer(Answer::TargetTip(Some(oid(100)))), Err(ResolveError::UnexpectedAnswer));
}

#[test]
fn answer_when_nothing_is_pending_is_refused() {
    let state = without_target(vec![]);
    let mut resolver = Resolver::start(&state, None);
    assert_eq!(resolver.next(), None);
    assert_eq!(resolver.answer(Answer::TargetTip(None)), Err(ResolveError::UnexpectedAnswer));
}

#[test]
fn mapping_is_not_handed_out_before_the_end() {
    let state = with_target(vec![stack(1, "a", oid(10), true)]);
    let resolver = Resolver::start(&state, None);
    assert!(resolver.finish().is_none());
}

#[test]
fn later_commit_of_a_walk_wins_over_an_earlier_one() {
    let state = with_target(vec![stack(1, "a", oid(30), true)]);
    let mut resolver = Resolver::start(&state, None);
    resolver.answer(Answer::TargetTip(Some(oid(100)))).unwrap();
    resolver.answer(Answer::Base(oid(1))).unwrap();
    resolver
        .answer(Answer::Ancestors(vec![seen(30, Some("c")), seen(29, Some("c")), seen(28, None)]))
        .unwrap();
    assert_eq!(resolver.finish().unwrap().get(&"c".to_string()), Some(oid(29)));
}

#[test]
fn resolving_twice_gives_the_same_mapping() {
    let state = with_target(vec![stack(1, "zeta", oid(20), true), stack(2, "alpha", oid(10), true)]);
    let (asked_once, once) = run(&state, Some(oid(50)));
    let (asked_twice, twice) = run(&state, Some(oid(50)));
    assert_eq!(asked_once, asked_twice);
    for change in ["change-top", "change-b", "change-shared", "unknown"] {
        assert_eq!(once.get(&change.to_string()), twice.get(&change.to_string()));
    }
    assert_eq!(once.entry_count(), twice.entry_count());
}
