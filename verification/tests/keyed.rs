use iced_logic::keyed::inherited_trees;

/// The state each child ends up with: the inherited tree's state, or the
/// child's own value for a fresh tree.
fn states(previous: &[u32], inherited: &[Option<usize>], fresh: &[u32]) -> Vec<u32> {
    inherited
        .iter()
        .zip(fresh)
        .map(|(slot, value)| slot.map_or(*value, |i| previous[i]))
        .collect()
}

#[test]
fn diff_moves_trees_with_their_keys() {
    // The first diff finds the keys but no trees yet: every child is fresh.
    let initial = inherited_trees(&vec![1usize, 2, 3], 0, &vec![1usize, 2, 3]);
    assert_eq!(vec![None, None, None], initial);
    let tree = states(&[], &initial, &[1, 2, 3]);
    assert_eq!(vec![1, 2, 3], tree);

    // Shift the window: key 1 leaves, key 4 enters, same length.
    let shifted = inherited_trees(&vec![1usize, 2, 3], 3, &vec![2usize, 3, 4]);
    assert_eq!(vec![Some(1), Some(2), None], shifted);
    assert_eq!(vec![2, 3, 4], states(&tree, &shifted, &[9, 9, 4]));
}

#[test]
fn a_repeated_key_inherits_only_once() {
    let inherited = inherited_trees(&vec![7u64, 8], 2, &vec![8u64, 8, 7]);
    assert_eq!(vec![Some(1), None, Some(0)], inherited);
}

#[test]
fn a_repeated_previous_key_hands_over_its_first_tree() {
    let inherited = inherited_trees(&vec![5u64, 5, 6], 3, &vec![5u64, 6]);
    assert_eq!(vec![Some(0), Some(2)], inherited);
}

#[test]
fn keys_without_trees_start_fresh() {
    assert_eq!(vec![None, Some(0)], inherited_trees(&vec![1u8, 2], 1, &vec![2u8, 1]));
    assert_eq!(Vec::<Option<usize>>::new(), inherited_trees(&vec![1u8], 1, &vec![]));
    assert_eq!(vec![None], inherited_trees(&Vec::<u8>::new(), 0, &vec![3u8]));
}

#[test]
fn every_surviving_key_takes_its_own_tree() {
    let previous = vec![10u32, 20, 30, 40];
    let inherited = inherited_trees(&previous, 4, &vec![40u32, 5, 20, 10]);
    assert_eq!(vec![Some(3), None, Some(1), Some(0)], inherited);
}
