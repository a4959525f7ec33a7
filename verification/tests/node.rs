use iced_logic::geometry::Axis;
use iced_logic::node::{Branch, Count, Node, Pane, Ratio, Split, HALF_BITS};

const INNER: Split = Split(0);
const OUTER: Split = Split(1);

fn ratio(value: f32) -> Ratio {
    Ratio(value.to_bits())
}

fn leaf(id: usize) -> Box<Node> {
    Box::new(Node::Pane(Pane(id)))
}

fn split(id: Split, axis: Axis, value: f32, a: Box<Node>, b: Box<Node>) -> Box<Node> {
    Box::new(Node::Split { id, axis, ratio: ratio(value), a, b })
}

/// OUTER (vertical) with INNER (vertical) over panes 0 and 1 on its left
/// and pane 2 on its right.
fn left_nested() -> Node {
    *split(OUTER, Axis::Vertical, 2.0 / 3.0, split(INNER, Axis::Vertical, 0.5, leaf(0), leaf(1)), leaf(2))
}

fn panes(node: &Node) -> Vec<usize> {
    match node {
        Node::Split { a, b, .. } => {
            let mut all = panes(a);
            all.extend(panes(b));
            all
        }
        Node::Pane(Pane(id)) => vec![*id],
    }
}

fn ratio_of(node: &Node, target: Split) -> Option<f32> {
    match node.find_split(target) {
        Some(Node::Split { ratio, .. }) => Some(f32::from_bits(ratio.0)),
        _ => None,
    }
}

#[test]
fn splits_visit_a_split_then_its_far_side() {
    let node = *split(
        Split(2),
        Axis::Horizontal,
        0.5,
        split(INNER, Axis::Vertical, 0.5, leaf(0), leaf(1)),
        split(OUTER, Axis::Vertical, 0.5, leaf(2), leaf(3)),
    );
    assert_eq!(vec![Split(2), OUTER, INNER], node.splits());
    assert!(Node::Pane(Pane(0)).splits().is_empty());
}

#[test]
fn splitting_keeps_the_old_node_first() {
    let mut node = Node::Pane(Pane(0));
    node.split(INNER, Axis::Vertical, Pane(1));
    assert_eq!(vec![0, 1], panes(&node));
    assert_eq!(Some(0.5), ratio_of(&node, INNER));

    node.split_inverse(OUTER, Axis::Horizontal, Pane(2));
    assert_eq!(vec![2, 0, 1], panes(&node));
    match &node {
        Node::Split { id, axis, ratio, .. } => {
            assert_eq!(*id, OUTER);
            assert_eq!(*axis, Axis::Horizontal);
            assert_eq!(ratio.0, HALF_BITS);
        }
        Node::Pane(_) => panic!("a split node was expected"),
    }
}

#[test]
fn resize_sets_only_the_named_ratio() {
    let mut node = left_nested();
    assert!(node.resize(INNER, ratio(0.25)));
    assert_eq!(Some(0.25), ratio_of(&node, INNER));
    assert_eq!(Some(2.0 / 3.0), ratio_of(&node, OUTER));
    assert_eq!(vec![0, 1, 2], panes(&node));
    assert!(!node.resize(Split(9), ratio(0.1)));
}

#[test]
fn remove_replaces_the_parent_by_the_sibling() {
    let mut node = left_nested();
    assert_eq!(Some(Pane(0)), node.remove(Pane(1)));
    assert_eq!(vec![0, 2], panes(&node));
    assert_eq!(vec![OUTER], node.splits());

    assert_eq!(Some(Pane(0)), node.remove(Pane(2)));
    assert_eq!(vec![0], panes(&node));
    assert_eq!(None, node.remove(Pane(0)));
    assert_eq!(vec![0], panes(&node));
}

#[test]
fn remove_of_a_missing_pane_changes_nothing() {
    let mut node = left_nested();
    assert_eq!(None, node.remove(Pane(7)));
    assert_eq!(vec![0, 1, 2], panes(&node));
}

#[test]
fn find_reaches_the_leaf_in_place() {
    let mut node = left_nested();
    if let Some(found) = node.find(Pane(1)) {
        found.split(Split(5), Axis::Horizontal, Pane(3));
    } else {
        panic!("pane 1 is in the tree");
    }
    assert_eq!(vec![0, 1, 3, 2], panes(&node));
    assert!(node.find(Pane(8)).is_none());
    assert!(node.contains_pane(Pane(3)));
    assert!(!node.contains_pane(Pane(8)));
}

#[test]
fn count_stacks_splits_per_axis() {
    let node = *split(
        OUTER,
        Axis::Vertical,
        0.5,
        split(INNER, Axis::Horizontal, 0.5, leaf(0), split(Split(2), Axis::Horizontal, 0.5, leaf(1), leaf(2))),
        leaf(3),
    );
    let count = node.count();
    assert_eq!(2, count.horizontal());
    assert_eq!(1, count.vertical());
    match count {
        Count::Split { a, b, .. } => {
            assert_eq!(2, a.horizontal());
            assert_eq!(0, a.vertical());
            assert_eq!(0, b.horizontal());
        }
        Count::Pane => panic!("a split count was expected"),
    }
    assert_eq!(0, Node::Pane(Pane(0)).count().horizontal());
}

#[test]
fn ancestors_run_from_the_nearest() {
    let node = *split(
        Split(3),
        Axis::Vertical,
        0.5,
        split(Split(2), Axis::Horizontal, 0.5, split(INNER, Axis::Vertical, 0.5, leaf(0), leaf(1)), leaf(2)),
        leaf(3),
    );
    assert_eq!(
        vec![(Split(2), Axis::Horizontal, Branch::A), (Split(3), Axis::Vertical, Branch::A)],
        node.ancestors(INNER)
    );
    assert_eq!(vec![(Split(3), Branch::A)], node.same_axis_ancestors(INNER, Axis::Vertical));
    assert!(node.ancestors(Split(3)).is_empty());
    assert!(node.ancestors(Split(9)).is_empty());
    assert_eq!(vec![Split(3), INNER], node.axis_splits(Axis::Vertical));
    assert_eq!(vec![Split(2)], node.axis_splits(Axis::Horizontal));
}

#[test]
fn a_fixed_side_hands_the_drag_to_an_ancestor() {
    // Pane 0 | (INNER: pane 1 | pane 2) under OUTER, all vertical.
    let node = *split(OUTER, Axis::Vertical, 1.0 / 3.0, leaf(0), split(INNER, Axis::Vertical, 0.05, leaf(1), leaf(2)));
    let fixed = vec![Pane(1)];
    assert_eq!(Some((true, false)), node.split_fixed_sides(INNER, &fixed));
    assert!(node.opposite_has_resize_target(OUTER, Branch::B, &fixed));
    assert_eq!(OUTER, node.resize_proxy(INNER, Axis::Vertical, &fixed));
    // Without a fixed side, the drag stays on the split itself.
    assert_eq!(INNER, node.resize_proxy(INNER, Axis::Vertical, &vec![]));
    // An ancestor on the other axis is no proxy.
    assert_eq!(INNER, node.resize_proxy(INNER, Axis::Horizontal, &fixed));
    assert!(node.is_fixed(&vec![Pane(0), Pane(1), Pane(2)]));
    assert!(!node.is_fixed(&fixed));
}

#[test]
fn update_visits_children_before_parents() {
    let mut node = left_nested();
    node.update(&|n: &mut Node| {
        if let Node::Pane(Pane(id)) = n {
            *id += 10;
        }
    });
    assert_eq!(vec![10, 11, 12], panes(&node));
}

#[test]
fn clone_is_a_deep_copy() {
    let node = left_nested();
    let mut copy = node.clone();
    assert!(copy.resize(INNER, ratio(0.9)));
    assert_eq!(Some(0.5), ratio_of(&node, INNER));
    assert_eq!(Some(0.9), ratio_of(&copy, INNER));
    assert_eq!(Pane(0), node.first_pane());
    assert_eq!(None, node.pane());
    assert_eq!(Some(Pane(4)), Node::Pane(Pane(4)).pane());
}
