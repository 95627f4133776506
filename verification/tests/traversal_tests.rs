use eytzinger_tree::{
    DepthFirstOrder, Entry, EytzingerTree, WalkAction, WalkHandler, Walkable,
};

/// Builds the shared example tree: root 5 with left child 2 (children 1 and
/// 4, where 4 has left child 3) and right child 7 (right child 8).
fn build_example_tree() -> EytzingerTree<u32> {
    let mut tree = EytzingerTree::<u32>::new(2);
    {
        let root = tree.set_root_value(5);
        let left = root.set_child_value(&mut tree, 0, 2);
        left.set_child_value(&mut tree, 0, 1);
        let left_right = left.set_child_value(&mut tree, 1, 4);
        left_right.set_child_value(&mut tree, 0, 3);
        let right = root.set_child_value(&mut tree, 1, 7);
        right.set_child_value(&mut tree, 1, 8);
    }
    tree
}

fn depth_first_values(tree: &EytzingerTree<u32>, order: DepthFirstOrder) -> Vec<u32> {
    let mut out = Vec::new();
    let mut iter = tree.depth_first_iter(order);
    while let Some(node) = iter.next() {
        out.push(*node.value());
    }
    out
}

#[test]
fn depth_first_iter_returns_empty_for_empty_tree() {
    let tree = EytzingerTree::<u32>::new(2);

    assert!(matches!(
        tree.depth_first_iter(DepthFirstOrder::PostOrder).next(),
        None
    ));
}

#[test]
fn depth_first_iter_returns_depth_first() {
    let tree = build_example_tree();

    assert_eq!(tree.len(), 7);

    let depth_first = depth_first_values(&tree, DepthFirstOrder::PreOrder);
    assert_eq!(depth_first, vec![5, 2, 1, 4, 3, 7, 8]);

    let depth_first = depth_first_values(&tree, DepthFirstOrder::PostOrder);
    assert_eq!(depth_first, vec![1, 3, 4, 2, 8, 7, 5]);
}

#[test]
fn into_depth_first_iterator_pre_order() {
    let tree = build_example_tree();

    assert_eq!(tree.len(), 7);

    let mut depth_first = Vec::new();
    let mut iter = tree.into_depth_first_iterator(DepthFirstOrder::PreOrder);
    while let Some(value) = iter.next() {
        depth_first.push(value);
    }

    assert_eq!(depth_first, vec![5, 2, 1, 4, 3, 7, 8]);
}

#[test]
fn into_depth_first_iterator_post_order() {
    let tree = build_example_tree();

    assert_eq!(tree.len(), 7);

    let mut depth_first = Vec::new();
    let mut iter = tree.into_depth_first_iterator(DepthFirstOrder::PostOrder);
    while let Some(value) = iter.next() {
        depth_first.push(value);
    }

    assert_eq!(depth_first, vec![1, 3, 4, 2, 8, 7, 5]);
}

#[test]
fn breadth_first_iter_returns_empty_for_empty_tree() {
    let tree = EytzingerTree::<u32>::new(2);

    assert!(matches!(tree.breadth_first_iter().next(), None));
}

#[test]
fn lib_breadth_first_iter_returns_breadth_first() {
    let tree = build_example_tree();

    assert_eq!(tree.len(), 7);

    let mut breadth_first = Vec::new();
    let mut iter = tree.breadth_first_iter();
    while let Some(node) = iter.next() {
        breadth_first.push(*node.value());
    }

    assert_eq!(breadth_first, vec![5, 2, 7, 1, 4, 8, 3]);
}

#[test]
fn into_breadth_first_iterator_returns_breadth_first() {
    let tree = build_example_tree();

    assert_eq!(tree.len(), 7);

    let mut breadth_first = Vec::new();
    let mut iter = tree.into_breadth_first_iterator();
    while let Some(value) = iter.next() {
        breadth_first.push(value);
    }

    assert_eq!(breadth_first, vec![5, 2, 7, 1, 4, 8, 3]);
}

#[test]
fn node_breadth_first_iter_returns_breadth_first() {
    let tree = build_example_tree();

    let mut child_breadth_first = Vec::new();
    let mut iter = tree.root().unwrap().child(0).unwrap().breadth_first_iter();
    while let Some(node) = iter.next() {
        child_breadth_first.push(*node.value());
    }

    assert_eq!(child_breadth_first, vec![2, 1, 4, 3]);
}

#[test]
fn split_off() {
    let mut tree = EytzingerTree::new(2);

    let split_off = {
        let child = tree
            .root_entry_mut()
            .or_insert(&mut tree, 10)
            .child_entry_mut(&tree, 0)
            .or_insert(&mut tree, 5);
        child
            .child_entry_mut(&tree, 0)
            .or_insert(&mut tree, 4)
            .child_entry_mut(&tree, 0)
            .or_insert(&mut tree, 1);
        child.child_entry_mut(&tree, 1).or_insert(&mut tree, 8);

        child.split_off(&mut tree)
    };

    let mut expected_remaining = EytzingerTree::new(2);
    {
        expected_remaining.root_entry_mut().or_insert(&mut expected_remaining, 10);
    }

    let mut expected_split_off = EytzingerTree::new(2);
    {
        let root = expected_split_off.root_entry_mut().or_insert(&mut expected_split_off, 5);

        root.child_entry_mut(&expected_split_off, 0)
            .or_insert(&mut expected_split_off, 4)
            .child_entry_mut(&expected_split_off, 0)
            .or_insert(&mut expected_split_off, 1);
        root.child_entry_mut(&expected_split_off, 1).or_insert(&mut expected_split_off, 8);
    }

    assert_eq!(tree, expected_remaining);
    assert_eq!(split_off, expected_split_off);
}

#[test]
fn split_off_keeps_the_pre_order_reading() {
    let tree = build_example_tree();
    let mut source = build_example_tree();

    // The pre-order reading of the subtree at the root's left child, before
    // the split.
    let mut before = Vec::new();
    let mut iter = tree.root().unwrap().child(0).unwrap().depth_first_iter(
        DepthFirstOrder::PreOrder,
    );
    while let Some(node) = iter.next() {
        before.push(*node.value());
    }
    assert_eq!(before, vec![2, 1, 4, 3]);

    let cursor = source.root_mut().unwrap().to_child(&source, 0).ok().unwrap();
    let new_tree = cursor.split_off(&mut source);

    let mut after = Vec::new();
    let mut iter = new_tree.depth_first_iter(DepthFirstOrder::PreOrder);
    while let Some(node) = iter.next() {
        after.push(*node.value());
    }
    assert_eq!(after, before);

    let remaining = depth_first_values(&source, DepthFirstOrder::PreOrder);
    assert_eq!(remaining, vec![5, 7, 8]);
    assert_eq!(source.len(), 3);
    assert_eq!(new_tree.len(), 4);
}

#[test]
fn every_iterator_yields_each_node_once_then_stays_empty() {
    let tree = build_example_tree();
    let expected = tree.len();

    let mut iter = tree.depth_first_iter(DepthFirstOrder::PreOrder);
    let mut yielded = 0;
    while let Some(_) = iter.next() {
        yielded += 1;
    }
    assert_eq!(yielded, expected);
    assert!(matches!(iter.next(), None));
    assert!(matches!(iter.next(), None));

    let mut iter = tree.breadth_first_iter();
    let mut yielded = 0;
    while let Some(_) = iter.next() {
        yielded += 1;
    }
    assert_eq!(yielded, expected);
    assert!(matches!(iter.next(), None));
    assert!(matches!(iter.next(), None));

    let mut iter = tree.into_depth_first_iterator(DepthFirstOrder::PostOrder);
    let mut yielded = 0;
    while let Some(_) = iter.next() {
        yielded += 1;
    }
    assert_eq!(yielded, expected);
    assert!(matches!(iter.next(), None));
    assert!(matches!(iter.next(), None));
}

/// Walks down the left spine, recording each value seen, and stops on the
/// first vacant entry.
struct LeftSpineRecorder {
    seen: Vec<u32>,
}

impl WalkHandler for LeftSpineRecorder {
    type Item = u32;

    fn on_node<'a>(&mut self, entry: &Entry<'a, u32>) -> WalkAction {
        match entry.node() {
            Some(node) => {
                self.seen.push(*node.value());
                WalkAction::Child(0)
            },
            None => WalkAction::Stop,
        }
    }
}

#[test]
fn walk_follows_the_handler_until_a_vacant_child() {
    let tree = build_example_tree();
    let mut handler = LeftSpineRecorder { seen: Vec::new() };
    tree.walk(&mut handler);
    assert_eq!(handler.seen, vec![5, 2, 1]);
}
