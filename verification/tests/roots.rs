use sapling_primitives::node::{Node, SAPLING_COMMITMENT_TREE_DEPTH};
use sapling_primitives::roots::EmptyRoots;

fn hex(bytes: &[u8]) -> String {
    let mut s = String::new();
    for b in bytes {
        s.push_str(&format!("{:02x}", b));
    }
    s
}

#[test]
fn table_has_one_root_for_each_depth() {
    let roots = EmptyRoots::new();
    assert_eq!(roots.len(), SAPLING_COMMITMENT_TREE_DEPTH + 1);
    assert_eq!(roots.len(), 33);
}

#[test]
fn table_starts_at_the_blank_leaf() {
    let roots = EmptyRoots::new();
    assert_eq!(Node::empty_root(0, &roots), Node::blank());
}

#[test]
fn every_root_is_its_predecessor_joined_with_itself() {
    let roots = EmptyRoots::new();
    for d in 0..SAPLING_COMMITMENT_TREE_DEPTH {
        let below = Node::empty_root(d, &roots);
        assert_eq!(
            Node::empty_root(d + 1, &roots),
            Node::combine(d, &below, &below)
        );
    }
}

#[test]
fn known_empty_roots() {
    let roots = EmptyRoots::new();
    let expected = [
        (0usize, "0100000000000000000000000000000000000000000000000000000000000000"),
        (1, "817de36ab2d57feb077634bca77819c8e0bd298c04f6fed0e6a83cc1356ca155"),
        (2, "ffe9fc03f18b176c998806439ff0bb8ad193afdb27b2ccbc88856916dd804e34"),
        (3, "d8283386ef2ef07ebdbb4383c12a739a953a4d6e0d6fb1139a4036d693bfbb6c"),
        (32, "fbc2f4300c01f0b7820d00e3347c8da4ee614674376cbc45359daa54f9b5493e"),
    ];
    for (depth, root) in expected.iter() {
        assert_eq!(hex(&Node::empty_root(*depth, &roots).to_bytes()), *root);
    }
}

#[test]
fn root_at_full_height_is_the_anchor_of_the_empty_tree() {
    let roots = EmptyRoots::new();
    let root = Node::empty_root(SAPLING_COMMITMENT_TREE_DEPTH, &roots);
    assert_eq!(
        root.to_bytes(),
        sapling_crypto::Anchor::empty_tree().to_bytes()
    );
}

#[test]
fn lookup_succeeds_up_to_the_height_and_fails_beyond() {
    let roots = EmptyRoots::new();
    assert_eq!(
        roots.get(SAPLING_COMMITMENT_TREE_DEPTH),
        Some(Node::empty_root(SAPLING_COMMITMENT_TREE_DEPTH, &roots))
    );
    assert_eq!(roots.get(SAPLING_COMMITMENT_TREE_DEPTH + 1), None);
    assert_eq!(roots.get(usize::MAX), None);
    for d in 0..=SAPLING_COMMITMENT_TREE_DEPTH {
        assert_eq!(roots.get(d), Some(Node::empty_root(d, &roots)));
    }
}

#[test]
fn every_empty_root_is_a_field_element() {
    let roots = EmptyRoots::new();
    for d in 0..=SAPLING_COMMITMENT_TREE_DEPTH {
        assert!(Node::empty_root(d, &roots).is_in_field());
        assert!(Node::empty_root(d, &roots).to_fr().is_ok());
    }
}

#[test]
fn two_tables_are_equal() {
    let first = EmptyRoots::new();
    let second = EmptyRoots::new();
    for d in 0..=SAPLING_COMMITMENT_TREE_DEPTH {
        assert_eq!(Node::empty_root(d, &first), Node::empty_root(d, &second));
    }
}

#[test]
fn tree_height_is_that_of_the_hash_library() {
    assert_eq!(
        SAPLING_COMMITMENT_TREE_DEPTH,
        usize::from(sapling_crypto::NOTE_COMMITMENT_TREE_DEPTH)
    );
}
