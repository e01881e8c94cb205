use stack_rewrite::change_ids::ChangeIds;
use stack_rewrite::ids::ObjectId;
use stack_rewrite::refs_table::RefsByCommit;
use stack_rewrite::rewrite::{rewrite, rewrite_scoped, ChangedCommit, RefEdit, RewriteError, Scope};
use stack_rewrite::state::{
    CommitOrChangeId, Reference, Stack, StackBranch, StackId, StackSegmentId, UpdatedReference,
    VirtualBranchesState,
};

fn oid(byte: u8) -> ObjectId {
    ObjectId { bytes: [byte; 20] }
}

fn by_commit(name: &str, commit: ObjectId, reference: Option<&str>) -> StackBranch {
    StackBranch {
        name: name.to_string(),
        head: CommitOrChangeId::CommitId(commit.to_hex()),
        reference: reference.map(|r| r.as_bytes().to_vec()),
    }
}

fn by_change(name: &str, change: &str, reference: Option<&str>) -> StackBranch {
    StackBranch {
        name: name.to_string(),
        head: CommitOrChangeId::ChangeId(change.to_string()),
        reference: reference.map(|r| r.as_bytes().to_vec()),
    }
}

fn stack(id: u128, name: &str, head: ObjectId, tree: ObjectId, heads: Vec<StackBranch>) -> Stack {
    Stack { id: StackId { value: id }, name: name.to_string(), head, tree, in_workspace: true, heads }
}

fn state(branches: Vec<Stack>) -> VirtualBranchesState {
    VirtualBranchesState { default_target: None, branches }
}

fn changed(old: ObjectId, new: ObjectId, tree: ObjectId) -> ChangedCommit {
    ChangedCommit { old, new, new_tree: Some(tree) }
}

fn virtual_update(old: ObjectId, new: ObjectId, name: &str) -> UpdatedReference {
    UpdatedReference {
        old_commit_id: old,
        new_commit_id: new,
        reference: Reference::Virtual(name.to_string()),
    }
}

fn git_update(old: ObjectId, new: ObjectId, name: &str) -> UpdatedReference {
    UpdatedReference {
        old_commit_id: old,
        new_commit_id: new,
        reference: Reference::Git(name.as_bytes().to_vec()),
    }
}

fn edit(old: ObjectId, new: ObjectId, name: &str) -> RefEdit {
    RefEdit {
        name: name.as_bytes().to_vec(),
        expected: old,
        new,
        log_message: "Created or amended commit".to_string(),
    }
}

#[test]
fn stack_head_moves_and_takes_the_tree_of_the_new_commit() {
    let mut s = state(vec![stack(1, "one", oid(1), oid(101), vec![])]);
    let mut updates = Vec::new();
    let edits = rewrite(
        &mut s,
        &ChangeIds::new(),
        RefsByCommit::new(),
        &vec![changed(oid(1), oid(2), oid(102))],
        &mut updates,
        None,
    )
    .unwrap();
    assert_eq!(s.branches[0].head, oid(2));
    assert_eq!(s.branches[0].tree, oid(102));
    assert_eq!(updates, vec![virtual_update(oid(1), oid(2), "one")]);
    assert_eq!(edits, vec![]);
}

#[test]
fn what_does_not_point_to_the_old_commit_stays() {
    let before = state(vec![stack(
        1,
        "one",
        oid(5),
        oid(105),
        vec![by_commit("top", oid(5), Some("refs/heads/top")), by_change("low", "c1", None)],
    )]);
    let mut s = before.clone();
    let mut ids = ChangeIds::new();
    ids.insert("c1".to_string(), oid(6));
    let mut refs = RefsByCommit::new();
    refs.add(&oid(7), b"refs/heads/elsewhere".to_vec());
    let mut updates = Vec::new();
    let edits = rewrite(
        &mut s,
        &ids,
        refs,
        &vec![changed(oid(1), oid(2), oid(102))],
        &mut updates,
        None,
    )
    .unwrap();
    assert_eq!(s, before);
    assert_eq!(updates, vec![]);
    assert_eq!(edits, vec![]);
}

#[test]
fn heads_move_newest_first_and_are_reported_after_their_stack() {
    let mut s = state(vec![stack(
        1,
        "one",
        oid(1),
        oid(101),
        vec![
            by_commit("top", oid(1), None),
            by_commit("mid", oid(9), None),
            by_commit("low", oid(1), None),
        ],
    )]);
    let mut updates = Vec::new();
    rewrite(
        &mut s,
        &ChangeIds::new(),
        RefsByCommit::new(),
        &vec![changed(oid(1), oid(2), oid(102))],
        &mut updates,
        None,
    )
    .unwrap();
    let heads = &s.branches[0].heads;
    assert_eq!(heads[0].head, CommitOrChangeId::CommitId(oid(2).to_hex()));
    assert_eq!(heads[1].head, CommitOrChangeId::CommitId(oid(9).to_hex()));
    assert_eq!(heads[2].head, CommitOrChangeId::CommitId(oid(2).to_hex()));
    assert_eq!(
        updates,
        vec![
            virtual_update(oid(1), oid(2), "one"),
            virtual_update(oid(1), oid(2), "top"),
            virtual_update(oid(1), oid(2), "low"),
        ]
    );
}

#[test]
fn head_given_by_change_identity_moves_and_then_names_the_commit() {
    let mut s = state(vec![stack(1, "one", oid(8), oid(108), vec![by_change("top", "change-a", None)])]);
    let mut ids = ChangeIds::new();
    ids.insert("change-a".to_string(), oid(1));
    let mut updates = Vec::new();
    rewrite(
        &mut s,
        &ids,
        RefsByCommit::new(),
        &vec![changed(oid(1), oid(2), oid(102))],
        &mut updates,
        None,
    )
    .unwrap();
    assert_eq!(
        s.branches[0].heads[0].head,
        CommitOrChangeId::CommitId("0202020202020202020202020202020202020202".to_string())
    );
    assert_eq!(s.branches[0].head, oid(8));
    assert_eq!(s.branches[0].tree, oid(108));
    assert_eq!(updates, vec![virtual_update(oid(1), oid(2), "top")]);
}

#[test]
fn heads_that_do_not_resolve_are_passed_over() {
    let before = state(vec![stack(
        1,
        "one",
        oid(8),
        oid(108),
        vec![
            by_change("unknown", "no-such-change", None),
            StackBranch {
                name: "broken".to_string(),
                head: CommitOrChangeId::CommitId("not hex".to_string()),
                reference: None,
            },
        ],
    )]);
    let mut s = before.clone();
    let mut updates = Vec::new();
    let edits = rewrite(
        &mut s,
        &ChangeIds::new(),
        RefsByCommit::new(),
        &vec![changed(oid(1), oid(2), oid(102))],
        &mut updates,
        None,
    )
    .unwrap();
    assert_eq!(s, before);
    assert_eq!(updates, vec![]);
    assert_eq!(edits, vec![]);
}

#[test]
fn plain_references_of_the_old_commit_get_guarded_edits() {
    let mut s = state(vec![]);
    let mut refs = RefsByCommit::new();
    refs.add(&oid(1), b"refs/heads/a".to_vec());
    refs.add(&oid(1), b"refs/remotes/origin/a".to_vec());
    refs.add(&oid(3), b"refs/heads/other".to_vec());
    let mut updates = Vec::new();
    let edits = rewrite(
        &mut s,
        &ChangeIds::new(),
        refs,
        &vec![changed(oid(1), oid(2), oid(102))],
        &mut updates,
        None,
    )
    .unwrap();
    assert_eq!(
        edits,
        vec![edit(oid(1), oid(2), "refs/heads/a"), edit(oid(1), oid(2), "refs/remotes/origin/a")]
    );
    assert_eq!(
        updates,
        vec![
            git_update(oid(1), oid(2), "refs/heads/a"),
            git_update(oid(1), oid(2), "refs/remotes/origin/a"),
        ]
    );
}

#[test]
fn reference_owned_by_a_moved_head_gets_no_edit_of_its_own() {
    let mut s = state(vec![stack(
        1,
        "one",
        oid(1),
        oid(101),
        vec![by_commit("top", oid(1), Some("refs/heads/top"))],
    )]);
    let mut refs = RefsByCommit::new();
    refs.add(&oid(1), b"refs/heads/top".to_vec());
    refs.add(&oid(1), b"refs/heads/plain".to_vec());
    let mut updates = Vec::new();
    let edits = rewrite(
        &mut s,
        &ChangeIds::new(),
        refs,
        &vec![changed(oid(1), oid(2), oid(102))],
        &mut updates,
        None,
    )
    .unwrap();
    assert_eq!(edits, vec![edit(oid(1), oid(2), "refs/heads/plain")]);
    assert_eq!(
        updates,
        vec![
            virtual_update(oid(1), oid(2), "one"),
            virtual_update(oid(1), oid(2), "top"),
            git_update(oid(1), oid(2), "refs/heads/plain"),
        ]
    );
    assert_eq!(s.branches[0].heads[0].reference, Some(b"refs/heads/top".to_vec()));
}

#[test]
fn stacks_are_processed_by_name() {
    let mut s = state(vec![
        stack(1, "zeta", oid(1), oid(101), vec![]),
        stack(2, "alpha", oid(1), oid(101), vec![]),
        stack(3, "mid", oid(1), oid(101), vec![]),
        stack(4, "alpha", oid(1), oid(101), vec![by_commit("second alpha", oid(1), None)]),
    ]);
    let mut updates = Vec::new();
    rewrite(
        &mut s,
        &ChangeIds::new(),
        RefsByCommit::new(),
        &vec![changed(oid(1), oid(2), oid(102))],
        &mut updates,
        None,
    )
    .unwrap();
    assert_eq!(
        updates,
        vec![
            virtual_update(oid(1), oid(2), "alpha"),
            virtual_update(oid(1), oid(2), "alpha"),
            virtual_update(oid(1), oid(2), "second alpha"),
            virtual_update(oid(1), oid(2), "mid"),
            virtual_update(oid(1), oid(2), "zeta"),
        ]
    );
    assert_eq!(s.branches[0].name, "zeta");
    for stack in &s.branches {
        assert_eq!(stack.head, oid(2));
    }
}

#[test]
fn changed_commits_are_applied_in_order() {
    let mut s = state(vec![stack(1, "one", oid(1), oid(101), vec![by_commit("top", oid(2), None)])]);
    let mut refs = RefsByCommit::new();
    refs.add(&oid(1), b"refs/heads/a".to_vec());
    let mut updates = Vec::new();
    let edits = rewrite(
        &mut s,
        &ChangeIds::new(),
        refs,
        &vec![
            changed(oid(1), oid(2), oid(102)),
            changed(oid(2), oid(3), oid(103)),
            changed(oid(1), oid(4), oid(104)),
        ],
        &mut updates,
        None,
    )
    .unwrap();
    // the stack went from 1 to 2 and on to 3; the third pair finds nothing left at 1
    assert_eq!(s.branches[0].head, oid(3));
    assert_eq!(s.branches[0].tree, oid(103));
    assert_eq!(s.branches[0].heads[0].head, CommitOrChangeId::CommitId(oid(3).to_hex()));
    assert_eq!(
        updates,
        vec![
            virtual_update(oid(1), oid(2), "one"),
            git_update(oid(1), oid(2), "refs/heads/a"),
            virtual_update(oid(2), oid(3), "one"),
            virtual_update(oid(2), oid(3), "top"),
        ]
    );
    assert_eq!(edits, vec![edit(oid(1), oid(2), "refs/heads/a")]);
}

#[test]
fn rewriting_what_is_no_longer_there_changes_nothing() {
    let mut s = state(vec![stack(1, "one", oid(1), oid(101), vec![by_commit("top", oid(1), None)])]);
    let pairs = vec![changed(oid(1), oid(2), oid(102))];
    let mut updates = Vec::new();
    rewrite(&mut s, &ChangeIds::new(), RefsByCommit::new(), &pairs, &mut updates, None).unwrap();
    let after_first = s.clone();
    let mut again = Vec::new();
    let edits =
        rewrite(&mut s, &ChangeIds::new(), RefsByCommit::new(), &pairs, &mut again, None).unwrap();
    assert_eq!(s, after_first);
    assert_eq!(again, vec![]);
    assert_eq!(edits, vec![]);
}

#[test]
fn records_are_appended_to_those_already_there() {
    let mut s = state(vec![stack(1, "one", oid(1), oid(101), vec![])]);
    let mut updates = vec![virtual_update(oid(7), oid(8), "earlier")];
    rewrite(
        &mut s,
        &ChangeIds::new(),
        RefsByCommit::new(),
        &vec![changed(oid(1), oid(2), oid(102))],
        &mut updates,
        None,
    )
    .unwrap();
    assert_eq!(
        updates,
        vec![virtual_update(oid(7), oid(8), "earlier"), virtual_update(oid(1), oid(2), "one")]
    );
}

#[test]
fn segment_keeps_the_rewrite_to_its_stack() {
    let mut s = state(vec![
        stack(1, "one", oid(1), oid(101), vec![by_commit("a", oid(1), None)]),
        stack(2, "two", oid(1), oid(101), vec![by_commit("b", oid(1), None)]),
    ]);
    let segment =
        StackSegmentId { stack_id: StackId { value: 2 }, segment_ref: b"refs/heads/b".to_vec() };
    let mut updates = Vec::new();
    rewrite(
        &mut s,
        &ChangeIds::new(),
        RefsByCommit::new(),
        &vec![changed(oid(1), oid(2), oid(102))],
        &mut updates,
        Some(&segment),
    )
    .unwrap();
    assert_eq!(s.branches[0].head, oid(1));
    assert_eq!(s.branches[0].heads[0].head, CommitOrChangeId::CommitId(oid(1).to_hex()));
    assert_eq!(s.branches[1].head, oid(2));
    assert_eq!(s.branches[1].heads[0].head, CommitOrChangeId::CommitId(oid(2).to_hex()));
    assert_eq!(
        updates,
        vec![virtual_update(oid(1), oid(2), "two"), virtual_update(oid(1), oid(2), "b")]
    );
}

#[test]
fn heads_beyond_the_segment_stay_and_keep_their_references() {
    let mut s = state(vec![stack(
        1,
        "one",
        oid(9),
        oid(109),
        vec![
            by_commit("newest", oid(1), Some("refs/heads/newest")),
            by_commit("middle", oid(1), Some("refs/heads/middle")),
            by_commit("oldest", oid(1), Some("refs/heads/oldest")),
        ],
    )]);
    let segment = StackSegmentId {
        stack_id: StackId { value: 1 },
        segment_ref: b"refs/heads/middle".to_vec(),
    };
    let mut refs = RefsByCommit::new();
    refs.add(&oid(1), b"refs/heads/newest".to_vec());
    refs.add(&oid(1), b"refs/heads/middle".to_vec());
    refs.add(&oid(1), b"refs/heads/oldest".to_vec());
    refs.add(&oid(1), b"refs/heads/unowned".to_vec());
    let mut updates = Vec::new();
    let edits = rewrite(
        &mut s,
        &ChangeIds::new(),
        refs,
        &vec![changed(oid(1), oid(2), oid(102))],
        &mut updates,
        Some(&segment),
    )
    .unwrap();
    let heads = &s.branches[0].heads;
    assert_eq!(heads[0].head, CommitOrChangeId::CommitId(oid(2).to_hex()));
    assert_eq!(heads[1].head, CommitOrChangeId::CommitId(oid(2).to_hex()));
    assert_eq!(heads[2].head, CommitOrChangeId::CommitId(oid(1).to_hex()));
    assert_eq!(
        updates,
        vec![
            virtual_update(oid(1), oid(2), "newest"),
            virtual_update(oid(1), oid(2), "middle"),
            git_update(oid(1), oid(2), "refs/heads/unowned"),
        ]
    );
    assert_eq!(edits, vec![edit(oid(1), oid(2), "refs/heads/unowned")]);
}

#[test]
fn segment_that_names_no_head_gates_nothing() {
    let mut s = state(vec![stack(
        1,
        "one",
        oid(9),
        oid(109),
        vec![by_commit("a", oid(1), None), by_commit("b", oid(1), None)],
    )]);
    let segment =
        StackSegmentId { stack_id: StackId { value: 1 }, segment_ref: b"refs/heads/zzz".to_vec() };
    let mut updates = Vec::new();
    rewrite(
        &mut s,
        &ChangeIds::new(),
        RefsByCommit::new(),
        &vec![changed(oid(1), oid(2), oid(102))],
        &mut updates,
        Some(&segment),
    )
    .unwrap();
    assert_eq!(
        updates,
        vec![virtual_update(oid(1), oid(2), "a"), virtual_update(oid(1), oid(2), "b")]
    );
}

#[test]
fn segment_reference_is_shortened_before_heads_are_compared() {
    // the head is called `refs/heads/a`, which is not the short form of the segment's name
    let mut s = state(vec![stack(
        1,
        "one",
        oid(9),
        oid(109),
        vec![by_commit("refs/heads/a", oid(1), None), by_commit("b", oid(1), None)],
    )]);
    let segment =
        StackSegmentId { stack_id: StackId { value: 1 }, segment_ref: b"refs/heads/a".to_vec() };
    let mut updates = Vec::new();
    rewrite(
        &mut s,
        &ChangeIds::new(),
        RefsByCommit::new(),
        &vec![changed(oid(1), oid(2), oid(102))],
        &mut updates,
        Some(&segment),
    )
    .unwrap();
    assert_eq!(
        updates,
        vec![virtual_update(oid(1), oid(2), "refs/heads/a"), virtual_update(oid(1), oid(2), "b")]
    );
}

#[test]
fn segment_with_an_invalid_reference_name_is_refused() {
    let before = state(vec![stack(1, "one", oid(1), oid(101), vec![])]);
    let mut s = before.clone();
    let segment =
        StackSegmentId { stack_id: StackId { value: 1 }, segment_ref: b"refs/heads/a..b".to_vec() };
    let mut updates = Vec::new();
    let r = rewrite(
        &mut s,
        &ChangeIds::new(),
        RefsByCommit::new(),
        &vec![changed(oid(1), oid(2), oid(102))],
        &mut updates,
        Some(&segment),
    );
    assert_eq!(r, Err(RewriteError::InvalidSegmentRef));
    assert_eq!(s, before);
    assert_eq!(updates, vec![]);
}

#[test]
fn missing_tree_stops_the_rewrite_before_that_commit() {
    let mut s = state(vec![stack(1, "one", oid(1), oid(101), vec![by_commit("top", oid(2), None)])]);
    let mut updates = Vec::new();
    let r = rewrite(
        &mut s,
        &ChangeIds::new(),
        RefsByCommit::new(),
        &vec![
            changed(oid(1), oid(2), oid(102)),
            ChangedCommit { old: oid(2), new: oid(3), new_tree: None },
        ],
        &mut updates,
        None,
    );
    assert_eq!(r, Err(RewriteError::MissingTree { index: 1, commit: oid(3) }));
    assert_eq!(s.branches[0].head, oid(2));
    assert_eq!(s.branches[0].tree, oid(102));
    assert_eq!(s.branches[0].heads[0].head, CommitOrChangeId::CommitId(oid(2).to_hex()));
    assert_eq!(updates, vec![virtual_update(oid(1), oid(2), "one")]);
}

#[test]
fn missing_tree_does_not_matter_where_no_stack_head_moves() {
    let mut s = state(vec![stack(1, "one", oid(9), oid(109), vec![by_commit("top", oid(1), None)])]);
    let mut updates = Vec::new();
    rewrite(
        &mut s,
        &ChangeIds::new(),
        RefsByCommit::new(),
        &vec![ChangedCommit { old: oid(1), new: oid(2), new_tree: None }],
        &mut updates,
        None,
    )
    .unwrap();
    assert_eq!(s.branches[0].heads[0].head, CommitOrChangeId::CommitId(oid(2).to_hex()));
    assert_eq!(s.branches[0].tree, oid(109));
}

#[test]
fn scope_takes_the_short_name_as_it_is() {
    let mut s = state(vec![stack(
        1,
        "one",
        oid(9),
        oid(109),
        vec![by_commit("a", oid(1), Some("refs/heads/a")), by_commit("b", oid(1), Some("refs/heads/b"))],
    )]);
    let scope = Scope { stack_id: StackId { value: 1 }, up_to: b"a".to_vec() };
    let mut refs = RefsByCommit::new();
    refs.add(&oid(1), b"refs/heads/b".to_vec());
    let mut updates = Vec::new();
    let edits = rewrite_scoped(
        &mut s,
        &ChangeIds::new(),
        refs,
        &vec![changed(oid(1), oid(2), oid(102))],
        &mut updates,
        Some(&scope),
    )
    .unwrap();
    assert_eq!(updates, vec![virtual_update(oid(1), oid(2), "a")]);
    assert_eq!(edits, vec![]);
    assert_eq!(s.branches[0].heads[1].head, CommitOrChangeId::CommitId(oid(1).to_hex()));
}

#[test]
fn later_entry_for_a_change_identity_wins() {
    let mut ids = ChangeIds::new();
    ids.insert("c".to_string(), oid(1));
    ids.insert("d".to_string(), oid(5));
    ids.insert("c".to_string(), oid(2));
    assert_eq!(ids.get(&"c".to_string()), Some(oid(2)));
    assert_eq!(ids.get(&"d".to_string()), Some(oid(5)));
    assert_eq!(ids.get(&"e".to_string()), None);
    assert_eq!(ids.entry_count(), 3);
}

#[test]
fn taking_an_entry_leaves_the_others() {
    let mut refs = RefsByCommit::new();
    refs.add(&oid(1), b"refs/heads/a".to_vec());
    refs.add(&oid(2), b"refs/heads/b".to_vec());
    refs.add(&oid(1), b"refs/heads/c".to_vec());
    assert_eq!(refs.take(&oid(1)), Some(vec![b"refs/heads/a".to_vec(), b"refs/heads/c".to_vec()]));
    assert_eq!(refs.take(&oid(1)), None);
    assert_eq!(refs.take(&oid(2)), Some(vec![b"refs/heads/b".to_vec()]));
    assert_eq!(refs.take(&oid(3)), None);
}

#[test]
fn stacks_with_the_same_identifier_are_noticed() {
    let distinct = state(vec![stack(1, "a", oid(1), oid(101), vec![]), stack(2, "a", oid(1), oid(101), vec![])]);
    assert!(distinct.has_distinct_ids());
    let doubled = state(vec![
        stack(1, "a", oid(1), oid(101), vec![]),
        stack(2, "b", oid(1), oid(101), vec![]),
        stack(1, "c", oid(1), oid(101), vec![]),
    ]);
    assert!(!doubled.has_distinct_ids());
    assert!(state(vec![]).has_distinct_ids());
}
