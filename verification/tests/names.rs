use stack_rewrite::ids::ObjectId;
use stack_rewrite::names::{bytes_equal, bytes_le, name_is, name_le, shorten};
use stack_rewrite::order::stacks_by_name;
use stack_rewrite::state::{Stack, StackId};

fn stack(id: u128, name: &str) -> Stack {
    Stack {
        id: StackId { value: id },
        name: name.to_string(),
        head: ObjectId { bytes: [0; 20] },
        tree: ObjectId { bytes: [0; 20] },
        in_workspace: true,
        heads: vec![],
    }
}

#[test]
fn bytes_are_ordered_lexicographically() {
    assert!(bytes_le(b"", b""));
    assert!(bytes_le(b"", b"a"));
    assert!(!bytes_le(b"a", b""));
    assert!(bytes_le(b"ab", b"abc"));
    assert!(!bytes_le(b"abc", b"ab"));
    assert!(bytes_le(b"abc", b"abd"));
    assert!(!bytes_le(b"abd", b"abc"));
    assert!(bytes_le(b"B", b"a"));
    assert!(bytes_le(b"same", b"same"));
    assert!(bytes_le(&[0x7f], &[0x80]));
}

#[test]
fn bytes_are_equal_if_all_are() {
    assert!(bytes_equal(b"", b""));
    assert!(bytes_equal(b"refs/heads/a", b"refs/heads/a"));
    assert!(!bytes_equal(b"refs/heads/a", b"refs/heads/b"));
    assert!(!bytes_equal(b"refs/heads/a", b"refs/heads/ab"));
}

#[test]
fn text_is_compared_by_its_bytes() {
    assert!(name_is(&"feature".to_string(), &b"feature".to_vec()));
    assert!(name_is(&"é".to_string(), &vec![0xc3, 0xa9]));
    assert!(!name_is(&"é".to_string(), &vec![0xe9]));
    assert!(name_le(&"z".to_string(), &"é".to_string()));
    assert!(!name_le(&"é".to_string(), &"z".to_string()));
    assert!(name_le(&"a".to_string(), &"a".to_string()));
}

#[test]
fn stacks_are_ordered_by_name_and_then_by_position() {
    let stacks = vec![
        stack(1, "b"),
        stack(2, "B"),
        stack(3, "abc"),
        stack(4, ""),
        stack(5, "ab"),
        stack(6, "b"),
        stack(7, "é"),
        stack(8, "B"),
    ];
    assert_eq!(stacks_by_name(&stacks), vec![3, 1, 7, 4, 2, 0, 5, 6]);
    assert_eq!(stacks_by_name(&vec![]), Vec::<usize>::new());
    assert_eq!(stacks_by_name(&vec![stack(1, "only")]), vec![0]);
}

#[test]
fn full_names_are_shortened() {
    assert_eq!(shorten(&b"refs/heads/feature".to_vec()), Some(b"feature".to_vec()));
    assert_eq!(shorten(&b"refs/heads/group/feature".to_vec()), Some(b"group/feature".to_vec()));
    assert_eq!(shorten(&b"refs/tags/v1".to_vec()), Some(b"v1".to_vec()));
    assert_eq!(shorten(&b"refs/remotes/origin/main".to_vec()), Some(b"origin/main".to_vec()));
    assert_eq!(shorten(&b"HEAD".to_vec()), Some(b"HEAD".to_vec()));
}

#[test]
fn invalid_full_names_have_no_short_form() {
    assert_eq!(shorten(&b"".to_vec()), None);
    assert_eq!(shorten(&b"refs/heads/a..b".to_vec()), None);
    assert_eq!(shorten(&b"refs/heads/a b".to_vec()), None);
    assert_eq!(shorten(&b"refs/heads/a.lock".to_vec()), None);
}
