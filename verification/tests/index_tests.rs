use eytzinger_tree::eytzinger_index_calculator::EytzingerIndexCalculator;

#[test]
fn child_index_packs_children_after_the_parent_block() {
    let calc = EytzingerIndexCalculator::new(3);
    assert_eq!(calc.max_children_per_node(), 3);
    assert_eq!(calc.child_index(0, 0), 1);
    assert_eq!(calc.child_index(0, 1), 2);
    assert_eq!(calc.child_index(0, 2), 3);
    assert_eq!(calc.child_index(1, 0), 4);
    assert_eq!(calc.child_index(2, 1), 8);
}

#[test]
fn parent_index_inverts_child_index() {
    let calc = EytzingerIndexCalculator::new(3);
    assert!(matches!(calc.parent_index(0), None));
    let parents: [usize; 3] = [0, 2, 7];
    let mut p: usize = 0;
    while p < parents.len() {
        let parent = parents[p];
        let mut offset: usize = 0;
        while offset < 3 {
            let child = calc.child_index(parent, offset);
            assert_eq!(calc.parent_index(child), Some(parent));
            offset += 1;
        }
        p += 1;
    }
}

#[test]
fn sibling_child_indexes_are_pairwise_distinct() {
    let calc = EytzingerIndexCalculator::new(4);
    let mut seen: Vec<usize> = Vec::new();
    let mut offset: usize = 0;
    while offset < 4 {
        let child = calc.child_index(5, offset);
        assert!(!seen.contains(&child));
        seen.push(child);
        offset += 1;
    }
}

#[test]
fn child_indexes_spans_exactly_the_children() {
    let calc = EytzingerIndexCalculator::new(2);
    let range = calc.child_indexes(3);
    assert_eq!(range.start, 7);
    assert_eq!(range.end, 9);
}
