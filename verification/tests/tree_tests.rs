use eytzinger_tree::{DepthFirstOrder, EntryMut, EytzingerTree};

/// Builds the shared example tree: root 5 with left child 2 (children 1 and
/// 4, where 4 has left child 3) and right child 7 (right child 8).
fn build_example_tree() -> EytzingerTree<u32> {
    let mut tree = EytzingerTree::<u32>::new(2);
    {
        let root = tree.set_root_value(5);
        let left = root.set_child_value(&mut tree, 0, 2);
        left.set_child_value(&mut tree, 0, 1);
        let left_right = left.set_child_value(&mut tree, 1, 4);
        left_right.set_child_value(&mut tree, 0, 3);
        let right = root.set_child_value(&mut tree, 1, 7);
        right.set_child_value(&mut tree, 1, 8);
    }
    tree
}

#[test]
fn root_is_none_for_empty() {
    let tree = EytzingerTree::<u32>::new(2);

    assert!(matches!(tree.root(), None));
    assert!(matches!(tree.root_mut(), None));
}

#[test]
fn set_root_value_sets_root() {
    let mut tree = EytzingerTree::<u32>::new(2);

    let expected_root = 5;
    tree.set_root_value(expected_root);

    assert_eq!(tree.root().map(|x| *x.value()).unwrap(), expected_root);
    let root_cursor = tree.root_mut().unwrap();
    assert_eq!(*root_cursor.value(&tree), expected_root);
}

#[test]
fn len_counts_nodes() {
    let tree = build_example_tree();
    assert_eq!(tree.len(), 7);
    assert!(!tree.is_empty());
    assert_eq!(tree.max_children_per_node(), 2);
}

#[test]
fn clear_empties_the_tree() {
    let mut tree = build_example_tree();
    tree.clear();
    assert_eq!(tree.len(), 0);
    assert!(tree.is_empty());
    assert!(matches!(tree.root(), None));
}

#[test]
fn remove_root_value_returns_old_root() {
    let mut tree = build_example_tree();
    let (old_root, vacant) = tree.remove_root_value();
    assert_eq!(old_root, Some(5));
    assert_eq!(vacant.index(), 0);
    assert_eq!(tree.len(), 0);
}

#[test]
fn insert_then_read_back_then_remove_round_trips() {
    let mut tree = EytzingerTree::<u32>::new(3);
    let root = tree.set_root_value(10);

    // Inserting at a vacant child entry and reading it back yields the value.
    let entry = root.child_entry_mut(&tree, 2);
    assert!(entry.is_vacant());
    let node = entry.or_insert(&mut tree, 42);
    assert_eq!(*node.value(&tree), 42);
    assert_eq!(tree.len(), 2);

    // Removing it yields the value again and leaves the position vacant.
    let entry = root.child_entry_mut(&tree, 2);
    assert!(entry.is_occupied());
    let (removed, vacant_entry) = entry.remove(&mut tree);
    assert_eq!(removed, Some(42));
    assert_eq!(vacant_entry.index(), root.child_entry_mut(&tree, 2).index());
    assert!(root.child_entry_mut(&tree, 2).is_vacant());
    assert_eq!(tree.len(), 1);
}

#[test]
fn removing_a_node_removes_all_descendants() {
    let mut tree = build_example_tree();
    assert_eq!(tree.len(), 7);

    // Node 2 has descendants 1, 4 and 3: clearing it removes four nodes.
    let left = tree.root_mut().unwrap().to_child(&tree, 0).ok().unwrap();
    assert_eq!(*left.value(&tree), 2);
    let removed = left.remove(&mut tree);
    assert_eq!(removed, 2);
    assert_eq!(tree.len(), 3);

    let values = {
        let mut out = Vec::new();
        let mut iter = tree.depth_first_iter(DepthFirstOrder::PreOrder);
        while let Some(node) = iter.next() {
            out.push(*node.value());
        }
        out
    };
    assert_eq!(values, vec![5, 7, 8]);
}

#[test]
fn removing_a_vacant_entry_changes_nothing() {
    let mut tree = EytzingerTree::<u32>::new(2);
    tree.set_root_value(9);
    assert_eq!(tree.len(), 1);

    let entry = tree.root_mut().unwrap().child_entry_mut(&tree, 1);
    assert!(entry.is_vacant());
    let (removed, vacant_entry) = entry.remove(&mut tree);
    assert!(matches!(removed, None));
    assert_eq!(tree.len(), 1);

    // Removing again through the handed-back entry is a no-op too.
    let (removed_again, _) = EntryMut::Vacant(vacant_entry).remove(&mut tree);
    assert!(matches!(removed_again, None));
    assert_eq!(tree.len(), 1);
}

#[test]
fn and_modify_rebuilds_an_occupied_value_only() {
    let mut tree = EytzingerTree::<u32>::new(2);
    tree.set_root_value(6);

    let entry = tree.root_entry_mut();
    let entry = entry.and_modify(&mut tree, |v| v * 7);
    assert!(entry.is_occupied());
    assert_eq!(tree.root().map(|n| *n.value()), Some(42));

    let vacant = tree.root_mut().unwrap().child_entry_mut(&tree, 0);
    vacant.and_modify(&mut tree, |v| v + 1);
    assert_eq!(tree.len(), 1);
}

#[test]
fn or_insert_keeps_an_existing_value() {
    let mut tree = EytzingerTree::<u32>::new(8);
    tree.root_entry_mut().or_insert(&mut tree, 5);
    tree.root_entry_mut().or_insert(&mut tree, 99);
    assert_eq!(tree.root().map(|n| *n.value()), Some(5));
    assert_eq!(tree.len(), 1);

    let made = tree.root_mut().unwrap().child_entry_mut(&tree, 3).or_insert_with(
        &mut tree,
        || 11,
    );
    assert_eq!(*made.value(&tree), 11);
    assert_eq!(tree.len(), 2);
}

#[test]
fn set_value_replaces_and_reports_the_old_value() {
    let mut tree = EytzingerTree::<u32>::new(2);
    tree.set_root_value(1);
    let (old_value, node) = tree.root_entry_mut().set_value(&mut tree, 2);
    assert_eq!(old_value, Some(1));
    assert_eq!(*node.value(&tree), 2);

    let mut entry = tree.root_entry_mut();
    let old_value = entry.set_value_mut(&mut tree, 3);
    assert_eq!(old_value, Some(2));
    assert!(entry.is_occupied());

    let mut entry = tree.root_entry_mut();
    let removed = entry.remove_mut(&mut tree);
    assert_eq!(removed, Some(3));
    assert!(entry.is_vacant());
    assert!(tree.is_empty());
}

#[test]
fn set_child_value_removes_the_former_subtree() {
    let mut tree = build_example_tree();
    assert_eq!(tree.len(), 7);

    // Overwriting the left child (value 2, descendants 1, 4 and 3) clears
    // that whole subtree before the new node goes in.
    let root = tree.root_mut().unwrap();
    let new_child = root.set_child_value(&mut tree, 0, 20);
    assert_eq!(*new_child.value(&tree), 20);
    assert_eq!(tree.len(), 4);
    assert!(matches!(new_child.child(&tree, 0), None));
    assert!(matches!(new_child.child(&tree, 1), None));

    let values = {
        let mut out = Vec::new();
        let mut iter = tree.depth_first_iter(DepthFirstOrder::PreOrder);
        while let Some(node) = iter.next() {
            out.push(*node.value());
        }
        out
    };
    assert_eq!(values, vec![5, 20, 7, 8]);
}

#[test]
fn navigation_links_parents_and_children() {
    let tree = build_example_tree();
    let root = tree.root().unwrap();
    assert!(matches!(root.parent(), None));

    let left = root.child(0).unwrap();
    assert_eq!(*left.value(), 2);
    assert_eq!(left.parent().map(|p| *p.value()), Some(5));

    let left_right = left.child(1).unwrap();
    assert_eq!(*left_right.value(), 4);
    assert!(matches!(left_right.child(1), None));

    let cursor = tree.root_mut().unwrap();
    let cursor = cursor.to_child(&tree, 1).ok().unwrap();
    assert_eq!(*cursor.value(&tree), 7);
    let cursor = cursor.to_parent(&tree).ok().unwrap();
    assert_eq!(*cursor.value(&tree), 5);
    assert!(cursor.to_parent(&tree).is_err());
}

#[test]
fn child_iter_skips_vacant_slots() {
    let mut tree = EytzingerTree::<u32>::new(8);
    {
        let root = tree.set_root_value(5);
        root.set_child_value(&mut tree, 0, 1);
        root.set_child_value(&mut tree, 2, 3);
    }
    let root = tree.root().unwrap();
    let mut child_values = Vec::new();
    let mut iter = root.child_iter();
    while let Some(child) = iter.next() {
        child_values.push(*child.value());
    }
    assert_eq!(child_values, vec![1, 3]);
}

#[test]
fn map_rebuilds_every_value_in_place() {
    let tree = build_example_tree();
    let doubled = tree.map(|v| v * 2);
    assert_eq!(doubled.len(), 7);

    let mut values = Vec::new();
    let mut iter = doubled.depth_first_iter(DepthFirstOrder::PreOrder);
    while let Some(node) = iter.next() {
        values.push(*node.value());
    }
    assert_eq!(values, vec![10, 4, 2, 8, 6, 14, 16]);
}

#[test]
fn equal_trees_compare_equal_whatever_their_capacity() {
    let mut grown = EytzingerTree::<u32>::new(2);
    let root = grown.set_root_value(1);
    root.set_child_value(&mut grown, 0, 2);
    let root = grown.root_mut().unwrap();
    root.remove_child_value(&mut grown, 0);

    let mut fresh = EytzingerTree::<u32>::new(2);
    fresh.set_root_value(1);

    assert_eq!(grown, fresh);
    fresh.set_root_value(3);
    assert_ne!(grown, fresh);
}
