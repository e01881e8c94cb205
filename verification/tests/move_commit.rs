use stack_rewrite::ids::ObjectId;
use stack_rewrite::locking::{analyze, entangled, CommitChanges, Verdict};
use stack_rewrite::move_commit::{move_commit, MoveError, MovePlan, NewCommit};
use stack_rewrite::rewrite::ChangedCommit;
use stack_rewrite::state::{Stack, StackId, VirtualBranchesState};

fn oid(byte: u8) -> ObjectId {
    ObjectId { bytes: [byte; 20] }
}

fn commit(byte: u8, paths: &[&str]) -> CommitChanges {
    CommitChanges { id: oid(byte), paths: paths.iter().map(|p| p.as_bytes().to_vec()).collect() }
}

fn stack(id: u128, name: &str, head: ObjectId) -> Stack {
    Stack {
        id: StackId { value: id },
        name: name.to_string(),
        head,
        tree: oid(200),
        in_workspace: true,
        heads: vec![],
    }
}

fn two_stacks() -> VirtualBranchesState {
    VirtualBranchesState {
        default_target: None,
        branches: vec![stack(1, "source", oid(3)), stack(2, "destination", oid(40))],
    }
}

const SOURCE: u128 = 1;
const DESTINATION: u128 = 2;

/// Moves out of the stack `SOURCE`.
fn try_move(
    state: &VirtualBranchesState,
    destination: u128,
    commit: &ObjectId,
    source_commits: &Vec<CommitChanges>,
) -> Result<MovePlan, MoveError> {
    move_commit(
        state,
        StackId { value: destination },
        commit,
        StackId { value: SOURCE },
        source_commits,
    )
}

/// The descriptions of the commits of a stack, newest first, by the byte of their id.
fn described(ids: &[ObjectId]) -> Vec<&'static str> {
    ids.iter()
        .map(|id| match id.bytes[0] {
            1 => "Add a",
            2 => "Add b",
            3 => "Add c",
            40 => "Add d",
            _ => "?",
        })
        .collect()
}

#[test]
fn multiple_commits() {
    let state = two_stacks();
    assert_eq!(state.branches[0].id.value, SOURCE);
    // the source lists [Add c, Add b, Add a], the destination [Add d]
    let source = vec![commit(3, &["c.txt"]), commit(2, &["b.txt"]), commit(1, &["a.txt"])];
    let plan = try_move(&state, DESTINATION, &oid(2), &source).unwrap();
    assert_eq!(
        plan,
        MovePlan {
            commit: oid(2),
            onto: oid(40),
            parent: Some(oid(1)),
            descendants: vec![oid(3)],
            remaining: vec![oid(3), oid(1)],
        }
    );
    assert_eq!(described(&plan.remaining), vec!["Add c", "Add a"]);
    assert_eq!(described(&[plan.commit, plan.onto]), vec!["Add b", "Add d"]);
}

#[test]
fn no_diffs() {
    let state = two_stacks();
    let source = vec![commit(3, &["file.txt"])];
    let plan = try_move(&state, DESTINATION, &oid(3), &source).unwrap();
    assert_eq!(
        plan,
        MovePlan {
            commit: oid(3),
            onto: oid(40),
            parent: None,
            descendants: vec![],
            remaining: vec![],
        }
    );
}

#[test]
fn moving_the_oldest_commit_rebases_all_above_it_oldest_first() {
    let state = two_stacks();
    let source = vec![commit(3, &["c.txt"]), commit(2, &["b.txt"]), commit(1, &["a.txt"])];
    let plan = try_move(&state, DESTINATION, &oid(1), &source).unwrap();
    assert_eq!(plan.parent, None);
    assert_eq!(plan.descendants, vec![oid(2), oid(3)]);
    assert_eq!(plan.remaining, vec![oid(3), oid(2)]);
}

#[test]
fn target_commit_locked_to_ancestors() {
    let state = two_stacks();
    // "Add a", then a commit that updates a.txt and adds b.txt
    let source = vec![commit(2, &["a.txt", "b.txt"]), commit(1, &["a.txt"])];
    let error = try_move(&state, DESTINATION, &oid(2), &source).unwrap_err();
    assert_eq!(error, MoveError::DependsOnOtherChanges);
    assert_eq!(error.message(), "Commit depends on other changes");
}

#[test]
fn target_commit_locked_to_descendants() {
    let state = two_stacks();
    // "Add a", "Add b", then "Update b"
    let source = vec![commit(3, &["b.txt"]), commit(2, &["b.txt"]), commit(1, &["a.txt"])];
    let error = try_move(&state, DESTINATION, &oid(2), &source).unwrap_err();
    assert_eq!(error, MoveError::HasDependentChanges);
    assert_eq!(error.message(), "Commit has dependent changes");
}

#[test]
fn dependency_is_reported_before_dependents() {
    let source = vec![commit(3, &["x"]), commit(2, &["x", "y"]), commit(1, &["y"])];
    assert_eq!(analyze(&source, 1), Verdict::RefuseAncestors);
    assert_eq!(analyze(&source, 0), Verdict::RefuseAncestors);
    assert_eq!(analyze(&source, 2), Verdict::RefuseDescendants);
}

#[test]
fn commits_on_different_paths_are_free() {
    let source = vec![commit(3, &["c.txt"]), commit(2, &["b.txt"]), commit(1, &["a.txt"])];
    assert_eq!(analyze(&source, 0), Verdict::Allow);
    assert_eq!(analyze(&source, 1), Verdict::Allow);
    assert_eq!(analyze(&source, 2), Verdict::Allow);
    assert!(!entangled(&source[0], &source[1]));
    assert!(entangled(&commit(1, &["a", "b"]), &commit(2, &["c", "b"])));
    assert!(!entangled(&commit(1, &[]), &commit(2, &["c", "b"])));
}

#[test]
fn locked_hunks_on_source_branch() {
    // file.txt was committed and then edited again in the working copy; only the commit
    // is known to the analysis
    let state = two_stacks();
    let source = vec![commit(3, &["file.txt"])];
    assert!(try_move(&state, DESTINATION, &oid(3), &source).is_ok());
}

#[test]
fn no_commit() {
    let state = two_stacks();
    let source = vec![commit(3, &["file.txt"])];
    let commit_id_hex = "a99c95cca7a60f1a2180c2f86fb18af97333c192";
    let missing = ObjectId::from_hex(commit_id_hex).unwrap();
    let error = try_move(&state, DESTINATION, &missing, &source).unwrap_err();
    assert_eq!(error, MoveError::CommitNotFound { commit: missing });
    assert_eq!(
        error.message(),
        "commit a99c95cca7a60f1a2180c2f86fb18af97333c192 to be moved could not be found"
    );
    assert_eq!(error.message(), format!("commit {commit_id_hex} to be moved could not be found"));
}

#[test]
fn no_branch() {
    let state = two_stacks();
    let source = vec![commit(3, &["file.txt"])];
    let error = try_move(&state, 77, &oid(3), &source).unwrap_err();
    assert_eq!(error, MoveError::DestinationNotFound);
    assert_eq!(error.message(), "Destination branch not found");
}

#[test]
fn unknown_destination_is_reported_before_an_unknown_commit() {
    let state = two_stacks();
    let error = try_move(&state, 77, &oid(9), &vec![]).unwrap_err();
    assert_eq!(error, MoveError::DestinationNotFound);
}

#[test]
fn unknown_commit_is_reported_before_entanglement() {
    let state = two_stacks();
    let source = vec![commit(2, &["a.txt"]), commit(1, &["a.txt"])];
    let error = try_move(&state, DESTINATION, &oid(9), &source).unwrap_err();
    assert_eq!(error, MoveError::CommitNotFound { commit: oid(9) });
}

#[test]
fn rebased_commits_replace_those_above_the_moved_one() {
    let state = two_stacks();
    let source = vec![commit(3, &["c.txt"]), commit(2, &["b.txt"]), commit(1, &["a.txt"])];
    let plan = try_move(&state, DESTINATION, &oid(1), &source).unwrap();
    let rebased =
        vec![NewCommit { id: oid(12), tree: oid(112) }, NewCommit { id: oid(13), tree: oid(113) }];
    assert_eq!(
        plan.source_changes(&rebased),
        Some(vec![
            ChangedCommit { old: oid(2), new: oid(12), new_tree: Some(oid(112)) },
            ChangedCommit { old: oid(3), new: oid(13), new_tree: Some(oid(113)) },
        ])
    );
    assert_eq!(plan.source_changes(&rebased[..1].to_vec()), None);
    assert_eq!(plan.source_changes(&vec![]), None);
    assert_eq!(
        plan.destination_change(NewCommit { id: oid(41), tree: oid(141) }),
        ChangedCommit { old: oid(40), new: oid(41), new_tree: Some(oid(141)) }
    );
}

#[test]
fn first_stack_with_the_identifier_is_the_destination() {
    let mut state = two_stacks();
    state.branches.push(stack(2, "also two", oid(50)));
    let source = vec![commit(3, &["file.txt"])];
    let plan = try_move(&state, DESTINATION, &oid(3), &source).unwrap();
    assert_eq!(plan.onto, oid(40));
}

#[test]
fn commit_of_an_unknown_source_is_not_found() {
    let state = two_stacks();
    let source = vec![commit(3, &["file.txt"])];
    let error =
        move_commit(&state, StackId { value: DESTINATION }, &oid(3), StackId { value: 99 }, &source)
            .unwrap_err();
    assert_eq!(error, MoveError::CommitNotFound { commit: oid(3) });
}

#[test]
fn commit_can_be_planned_onto_its_own_stack() {
    let state = two_stacks();
    let source = vec![commit(3, &["c.txt"]), commit(2, &["b.txt"])];
    let plan =
        try_move(&state, SOURCE, &oid(2), &source)
            .unwrap();
    assert_eq!(plan.onto, oid(3));
    assert_eq!(plan.remaining, vec![oid(3)]);
}
