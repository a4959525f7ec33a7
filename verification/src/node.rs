//! The split tree of a pane grid.
use vstd::prelude::*;

use crate::geometry::Axis;

verus! {

/// The bit pattern of the `f32` value `0.5`.
pub const HALF_BITS: u32 = 0x3f00_0000u32;

/// The bit pattern of the `f32` value `1.0`.
pub const ONE_BITS: u32 = 0x3f80_0000u32;

/// The bit pattern of the `f32` value `-0.0`.
pub const NEGATIVE_ZERO_BITS: u32 = 0x8000_0000u32;

/// A rectangular region of a pane grid, identified by its index.
#[derive(Debug, Clone, Copy, PartialEq, Eq, Structural, PartialOrd, Ord, Hash)]
pub struct Pane(pub usize);

/// A divider that splits a region of a pane grid in two.
#[derive(Debug, Clone, Copy, PartialEq, Eq, Structural, PartialOrd, Ord, Hash)]
pub struct Split(pub usize);

/// The ratio of a split in [0.0, 1.0], held as the bit pattern of an `f32`.
#[derive(Debug, Clone, Copy, PartialEq, Eq, Structural, Hash)]
pub struct Ratio(pub u32);

impl Ratio {
    /// Whether the ratio lies in [0.0, 1.0]: a non-negative `f32` no
    /// greater than one (its bits ordered as the values are), or `-0.0`.
    pub open spec fn in_unit_interval(self) -> bool {
        self.0 <= ONE_BITS || self.0 == NEGATIVE_ZERO_BITS
    }

    /// An even split, `0.5`.
    pub fn half() -> (r: Ratio)
        ensures
            r.0 == HALF_BITS,
    {
        Ratio(HALF_BITS)
    }
}

/// The other side of a split.
pub open spec fn opposite(branch: Branch) -> Branch {
    match branch {
        Branch::A => Branch::B,
        Branch::B => Branch::A,
    }
}

/// Which side of a split a subtree sits on: `A` is the left/top one,
/// `B` the right/bottom one.
#[derive(Debug, Clone, Copy, PartialEq, Eq, Structural)]
pub enum Branch {
    /// The left/top side.
    A,
    /// The right/bottom side.
    B,
}

/// A layout node of a pane grid.
#[derive(Debug)]
pub enum Node {
    /// The region of this node is split into two.
    Split {
        /// The identifier of the split.
        id: Split,
        /// The direction of the split.
        axis: Axis,
        /// The ratio of the split.
        ratio: Ratio,
        /// The left/top node of the split.
        a: Box<Node>,
        /// The right/bottom node of the split.
        b: Box<Node>,
    },
    /// The region of this node is taken by a pane.
    Pane(Pane),
}

/// How many splits of each direction a subtree stacks, mirroring the
/// shape of the node it was counted from.
#[derive(Debug)]
pub enum Count {
    /// The count of a split node.
    Split {
        /// Horizontal splits stacked on top of each other.
        horizontal: usize,
        /// Vertical splits placed side by side.
        vertical: usize,
        /// The count of the left/top node.
        a: Box<Count>,
        /// The count of the right/bottom node.
        b: Box<Count>,
    },
    /// The count of a pane.
    Pane,
}

/// The larger of two naturals.
pub open spec fn max_nat(x: nat, y: nat) -> nat {
    if x >= y { x } else { y }
}

impl Node {
    /// The panes of the tree, left/top first.
    pub open spec fn panes(self) -> Seq<Pane>
        decreases self,
    {
        match self {
            Node::Split { a, b, .. } => a.panes() + b.panes(),
            Node::Pane(p) => seq![p],
        }
    }

    /// The number of split nodes in the tree.
    pub open spec fn num_splits(self) -> nat
        decreases self,
    {
        match self {
            Node::Split { a, b, .. } => 1 + a.num_splits() + b.num_splits(),
            Node::Pane(_) => 0,
        }
    }

    /// The split identifiers in the order of a depth-first walk that
    /// visits a split, then its right/bottom side, then its left/top side.
    pub open spec fn split_order(self) -> Seq<Split>
        decreases self,
    {
        match self {
            Node::Split { id, a, b, .. } => seq![id] + b.split_order() + a.split_order(),
            Node::Pane(_) => seq![],
        }
    }

    /// Whether some split of the tree has identifier `s`.
    pub open spec fn has_split(self, s: Split) -> bool
        decreases self,
    {
        match self {
            Node::Split { id, a, b, .. } => id == s || a.has_split(s) || b.has_split(s),
            Node::Pane(_) => false,
        }
    }

    /// Whether some pane of the tree is `p`.
    pub open spec fn has_pane(self, p: Pane) -> bool
        decreases self,
    {
        match self {
            Node::Split { a, b, .. } => a.has_pane(p) || b.has_pane(p),
            Node::Pane(q) => q == p,
        }
    }

    /// Horizontal splits stacked along the height of the tree.
    pub open spec fn horizontal_splits(self) -> nat
        decreases self,
    {
        match self {
            Node::Split { axis, a, b, .. } => match axis {
                Axis::Horizontal => 1 + a.horizontal_splits() + b.horizontal_splits(),
                Axis::Vertical => max_nat(a.horizontal_splits(), b.horizontal_splits()),
            },
            Node::Pane(_) => 0,
        }
    }

    /// Vertical splits placed along the width of the tree.
    pub open spec fn vertical_splits(self) -> nat
        decreases self,
    {
        match self {
            Node::Split { axis, a, b, .. } => match axis {
                Axis::Horizontal => max_nat(a.vertical_splits(), b.vertical_splits()),
                Axis::Vertical => 1 + a.vertical_splits() + b.vertical_splits(),
            },
            Node::Pane(_) => 0,
        }
    }

    /// The tree with the ratio of the first split with identifier `s`
    /// (left/top subtrees searched first) set to `r`.
    pub open spec fn with_ratio(self, s: Split, r: Ratio) -> Node
        decreases self,
    {
        match self {
            Node::Split { id, axis, ratio, a, b } => if id == s {
                Node::Split { id, axis, ratio: r, a, b }
            } else if a.has_split(s) {
                Node::Split { id, axis, ratio, a: Box::new(a.with_ratio(s, r)), b }
            } else {
                Node::Split { id, axis, ratio, a, b: Box::new(b.with_ratio(s, r)) }
            },
            Node::Pane(_) => self,
        }
    }

    /// The first split node with identifier `s`, left/top subtrees first.
    pub open spec fn split_node(self, s: Split) -> Option<Node>
        decreases self,
    {
        match self {
            Node::Split { id, a, b, .. } => if id == s {
                Some(self)
            } else if a.has_split(s) {
                a.split_node(s)
            } else {
                b.split_node(s)
            },
            Node::Pane(_) => None,
        }
    }

    /// The identifiers of the splits along `axis`, in a depth-first walk
    /// that visits a split, then its left/top side, then its right/bottom side.
    pub open spec fn axis_split_ids(self, axis: Axis) -> Seq<Split>
        decreases self,
    {
        match self {
            Node::Split { id, axis: split_axis, a, b, .. } => (if split_axis == axis {
                seq![id]
            } else {
                Seq::<Split>::empty()
            }) + a.axis_split_ids(axis) + b.axis_split_ids(axis),
            Node::Pane(_) => seq![],
        }
    }
}

impl Count {
    /// The horizontal count of a split, zero for a pane.
    pub open spec fn spec_horizontal(self) -> nat {
        match self {
            Count::Split { horizontal, .. } => horizontal as nat,
            Count::Pane => 0,
        }
    }

    /// The vertical count of a split, zero for a pane.
    pub open spec fn spec_vertical(self) -> nat {
        match self {
            Count::Split { vertical, .. } => vertical as nat,
            Count::Pane => 0,
        }
    }

    /// Whether this count has the shape of `node` and holds, at every
    /// split, that subtree's horizontal and vertical split counts.
    pub open spec fn describes(self, node: Node) -> bool
        decreases self,
    {
        match self {
            Count::Split { horizontal, vertical, a, b } => match node {
                Node::Split { a: node_a, b: node_b, .. } => {
                    &&& horizontal as nat == node.horizontal_splits()
                    &&& vertical as nat == node.vertical_splits()
                    &&& a.describes(*node_a)
                    &&& b.describes(*node_b)
                },
                Node::Pane(_) => false,
            },
            Count::Pane => node is Pane,
        }
    }

    /// The horizontal count of a split, zero for a pane.
    pub fn horizontal(&self) -> (h: usize)
        ensures
            h as nat == self.spec_horizontal(),
    {
        match self {
            Count::Split { horizontal, .. } => *horizontal,
            Count::Pane => 0,
        }
    }

    /// The vertical count of a split, zero for a pane.
    pub fn vertical(&self) -> (v: usize)
        ensures
            v as nat == self.spec_vertical(),
    {
        match self {
            Count::Split { vertical, .. } => *vertical,
            Count::Pane => 0,
        }
    }
}

impl Clone for Node {
    /// A deep copy of the tree.
    fn clone(&self) -> (c: Self)
        ensures
            c == *self,
        decreases self,
    {
        match self {
            Node::Split { id, axis, ratio, a, b } => Node::Split {
                id: *id,
                axis: *axis,
                ratio: *ratio,
                a: Box::new((**a).clone()),
                b: Box::new((**b).clone()),
            },
            Node::Pane(p) => Node::Pane(*p),
        }
    }
}

proof fn lemma_split_counts_bounded(node: Node)
    ensures
        node.horizontal_splits() <= node.num_splits(),
        node.vertical_splits() <= node.num_splits(),
    decreases node,
{
    if let Node::Split { a, b, .. } = node {
        lemma_split_counts_bounded(*a);
        lemma_split_counts_bounded(*b);
    }
}

impl Node {
    /// Returns each split of this node, in the order of a depth-first walk
    /// that visits a split, then its right/bottom side, then its left/top side.
    pub fn splits(&self) -> (v: Vec<Split>)
        ensures
            v@ == self.split_order(),
    {
        let mut v = Vec::new();
        self.collect_splits(&mut v);
        v
    }

    fn collect_splits(&self, out: &mut Vec<Split>)
        ensures
            final(out)@ == old(out)@ + self.split_order(),
        decreases self,
    {
        match self {
            Node::Split { id, a, b, .. } => {
                out.push(*id);
                b.collect_splits(out);
                a.collect_splits(out);
                assert(final(out)@ =~= old(out)@ + self.split_order());
            },
            Node::Pane(_) => {
                assert(final(out)@ =~= old(out)@ + self.split_order());
            },
        }
    }

    /// Counts the horizontal and vertical splits of every subtree.
    pub fn count(&self) -> (c: Count)
        requires
            self.num_splits() < usize::MAX,
        ensures
            c.describes(*self),
        decreases self,
    {
        match self {
            Node::Split { a, b, axis, .. } => {
                proof {
                    lemma_split_counts_bounded(**a);
                    lemma_split_counts_bounded(**b);
                }
                let count_a = a.count();
                let count_b = b.count();
                let (horizontal, vertical) = match axis {
                    Axis::Horizontal => {
                        let va = count_a.vertical();
                        let vb = count_b.vertical();
                        (1 + count_a.horizontal() + count_b.horizontal(), if va >= vb { va } else { vb })
                    },
                    Axis::Vertical => {
                        let ha = count_a.horizontal();
                        let hb = count_b.horizontal();
                        (if ha >= hb { ha } else { hb }, 1 + count_a.vertical() + count_b.vertical())
                    },
                };
                Count::Split { horizontal, vertical, a: Box::new(count_a), b: Box::new(count_b) }
            },
            Node::Pane(_) => Count::Pane,
        }
    }
}


impl Node {
    /// The pane of a leaf, `None` for a split.
    pub open spec fn spec_pane(self) -> Option<Pane> {
        match self {
            Node::Split { .. } => None,
            Node::Pane(p) => Some(p),
        }
    }

    /// The first pane of the tree, left/top first.
    pub open spec fn spec_first_pane(self) -> Pane
        decreases self,
    {
        match self {
            Node::Split { a, .. } => a.spec_first_pane(),
            Node::Pane(p) => p,
        }
    }

    /// What `remove(p)` leaves of the tree, and the pane it returns.
    pub open spec fn removed(self, p: Pane) -> (Node, Option<Pane>)
        decreases self,
    {
        match self {
            Node::Split { id, axis, ratio, a, b } => if a.spec_pane() == Some(p) {
                (*b, Some(b.spec_first_pane()))
            } else if b.spec_pane() == Some(p) {
                (*a, Some(a.spec_first_pane()))
            } else {
                let (new_a, from_a) = a.removed(p);
                if from_a is Some {
                    (Node::Split { id, axis, ratio, a: Box::new(new_a), b }, from_a)
                } else {
                    let (new_b, from_b) = b.removed(p);
                    (Node::Split { id, axis, ratio, a, b: Box::new(new_b) }, from_b)
                }
            },
            Node::Pane(_) => (self, None),
        }
    }

    /// The splits from the root down to the first split with identifier
    /// `s`, each with its axis and the side the path leaves it by.
    pub open spec fn path_to(self, s: Split) -> Seq<(Split, Axis, Branch)>
        decreases self,
    {
        match self {
            Node::Split { id, axis, a, b, .. } => if id == s {
                seq![]
            } else if a.has_split(s) {
                seq![(id, axis, Branch::A)] + a.path_to(s)
            } else if b.has_split(s) {
                seq![(id, axis, Branch::B)] + b.path_to(s)
            } else {
                seq![]
            },
            Node::Pane(_) => seq![],
        }
    }

    /// The sides taken from the root down to the leaf of pane `p`,
    /// left/top subtrees searched first; empty when the tree has no such
    /// leaf or is that leaf.
    pub open spec fn pane_path(self, p: Pane) -> Seq<Branch>
        decreases self,
    {
        match self {
            Node::Split { a, b, .. } => if a.has_pane(p) {
                seq![Branch::A] + a.pane_path(p)
            } else if b.has_pane(p) {
                seq![Branch::B] + b.pane_path(p)
            } else {
                seq![]
            },
            Node::Pane(_) => seq![],
        }
    }

    /// The subtree reached from the root by taking the sides in `path`.
    pub open spec fn subtree(self, path: Seq<Branch>) -> Node
        decreases path.len(),
    {
        if path.len() == 0 {
            self
        } else {
            match self {
                Node::Split { a, b, .. } => match path[0] {
                    Branch::A => a.subtree(path.drop_first()),
                    Branch::B => b.subtree(path.drop_first()),
                },
                Node::Pane(_) => self,
            }
        }
    }

    /// The tree with the subtree reached by `path` replaced by `t`.
    pub open spec fn with_subtree(self, path: Seq<Branch>, t: Node) -> Node
        decreases path.len(),
    {
        if path.len() == 0 {
            t
        } else {
            match self {
                Node::Split { id, axis, ratio, a, b } => match path[0] {
                    Branch::A => Node::Split {
                        id,
                        axis,
                        ratio,
                        a: Box::new(a.with_subtree(path.drop_first(), t)),
                        b,
                    },
                    Branch::B => Node::Split {
                        id,
                        axis,
                        ratio,
                        a,
                        b: Box::new(b.with_subtree(path.drop_first(), t)),
                    },
                },
                Node::Pane(_) => self,
            }
        }
    }

    /// The ancestors of the first split with identifier `s`, nearest first.
    pub open spec fn spec_ancestors(self, s: Split) -> Seq<(Split, Axis, Branch)> {
        self.path_to(s).reverse()
    }
}

/// The ancestors that split along `axis`, each with its identifier and
/// the side the descendant sits on, order kept.
pub open spec fn same_axis(path: Seq<(Split, Axis, Branch)>, axis: Axis) -> Seq<(Split, Branch)>
    decreases path.len(),
{
    if path.len() == 0 {
        seq![]
    } else {
        let rest = same_axis(path.drop_last(), axis);
        let last = path.last();
        if last.1 == axis {
            rest.push((last.0, last.2))
        } else {
            rest
        }
    }
}

/// Setting the ratio of a split the tree does not have changes nothing.
proof fn lemma_with_ratio_absent(node: Node, s: Split, r: Ratio)
    requires
        !node.has_split(s),
    ensures
        node.with_ratio(s, r) == node,
    decreases node,
{
    if let Node::Split { a, b, .. } = node {
        lemma_with_ratio_absent(*a, s, r);
        lemma_with_ratio_absent(*b, s, r);
    }
}

impl Node {
    /// Whether the tree has a split with identifier `s`.
    pub fn contains_split(&self, s: Split) -> (found: bool)
        ensures
            found == self.has_split(s),
        decreases self,
    {
        match self {
            Node::Split { id, a, b, .. } => *id == s || a.contains_split(s) || b.contains_split(s),
            Node::Pane(_) => false,
        }
    }

    /// Replaces this node by a split of it: the old node on the left/top,
    /// `new_pane` on the right/bottom, at an even ratio.
    pub fn split(&mut self, id: Split, axis: Axis, new_pane: Pane)
        ensures
            *final(self) == (Node::Split {
                id,
                axis,
                ratio: Ratio(HALF_BITS),
                a: Box::new(*old(self)),
                b: Box::new(Node::Pane(new_pane)),
            }),
    {
        let mut previous = Node::Pane(new_pane);
        std::mem::swap(self, &mut previous);
        *self = Node::Split {
            id,
            axis,
            ratio: Ratio::half(),
            a: Box::new(previous),
            b: Box::new(Node::Pane(new_pane)),
        };
    }

    /// Replaces this node by a split of it: `pane` on the left/top, the old
    /// node on the right/bottom, at an even ratio.
    pub fn split_inverse(&mut self, id: Split, axis: Axis, pane: Pane)
        ensures
            *final(self) == (Node::Split {
                id,
                axis,
                ratio: Ratio(HALF_BITS),
                a: Box::new(Node::Pane(pane)),
                b: Box::new(*old(self)),
            }),
    {
        let mut previous = Node::Pane(pane);
        std::mem::swap(self, &mut previous);
        *self = Node::Split {
            id,
            axis,
            ratio: Ratio::half(),
            a: Box::new(Node::Pane(pane)),
            b: Box::new(previous),
        };
    }

    /// Sets the ratio of the first split with identifier `split`, left/top
    /// subtrees searched first; tells whether there was one.
    pub fn resize(&mut self, split: Split, ratio: Ratio) -> (found: bool)
        requires
            ratio.in_unit_interval(),
        ensures
            found == old(self).has_split(split),
            *final(self) == old(self).with_ratio(split, ratio),
        decreases *old(self),
    {
        match self {
            Node::Split { id, ratio: current, a, b, .. } => {
                if *id == split {
                    *current = ratio;
                    true
                } else {
                    let ghost before = **a;
                    if a.resize(split, ratio) {
                        true
                    } else {
                        proof {
                            lemma_with_ratio_absent(before, split, ratio);
                        }
                        b.resize(split, ratio)
                    }
                }
            },
            Node::Pane(_) => false,
        }
    }

    /// The first split node with identifier `split`, left/top subtrees first.
    pub fn find_split(&self, split: Split) -> (found: Option<&Node>)
        ensures
            found == match self.split_node(split) {
                Some(n) => Some(&n),
                None => None::<&Node>,
            },
        decreases self,
    {
        match self {
            Node::Split { id, a, b, .. } => {
                if *id == split {
                    Some(self)
                } else if a.contains_split(split) {
                    a.find_split(split)
                } else {
                    b.find_split(split)
                }
            },
            Node::Pane(_) => None,
        }
    }

    /// The identifiers of the splits along `axis`: a split before its
    /// left/top side, which comes before its right/bottom side.
    pub fn axis_splits(&self, axis: Axis) -> (v: Vec<Split>)
        ensures
            v@ == self.axis_split_ids(axis),
    {
        let mut splits = Vec::new();
        self.collect_axis_splits(axis, &mut splits);
        splits
    }

    fn collect_axis_splits(&self, axis: Axis, splits: &mut Vec<Split>)
        ensures
            final(splits)@ == old(splits)@ + self.axis_split_ids(axis),
        decreases self,
    {
        match self {
            Node::Split { id, axis: split_axis, a, b, .. } => {
                if *split_axis == axis {
                    splits.push(*id);
                }
                a.collect_axis_splits(axis, splits);
                b.collect_axis_splits(axis, splits);
                assert(final(splits)@ =~= old(splits)@ + self.axis_split_ids(axis));
            },
            Node::Pane(_) => {
                assert(final(splits)@ =~= old(splits)@ + self.axis_split_ids(axis));
            },
        }
    }
}


/// What `remove(p)` leaves is the tree itself when it returns `None`.
proof fn lemma_removed_nothing(node: Node, p: Pane)
    ensures
        node.removed(p).1 is None ==> node.removed(p).0 == node,
    decreases node,
{
    if let Node::Split { a, b, .. } = node {
        lemma_removed_nothing(*a, p);
        lemma_removed_nothing(*b, p);
    }
}

impl Node {
    /// Whether this node is the leaf of pane `p`.
    fn is_pane(&self, p: Pane) -> (is: bool)
        ensures
            is == (self.spec_pane() == Some(p)),
    {
        match self {
            Node::Pane(q) => *q == p,
            Node::Split { .. } => false,
        }
    }

    /// The pane of a leaf, `None` for a split.
    pub fn pane(&self) -> (p: Option<Pane>)
        ensures
            p == self.spec_pane(),
    {
        match self {
            Node::Split { .. } => None,
            Node::Pane(pane) => Some(*pane),
        }
    }

    /// The first pane of the tree, left/top first.
    pub fn first_pane(&self) -> (p: Pane)
        ensures
            p == self.spec_first_pane(),
        decreases self,
    {
        match self {
            Node::Split { a, .. } => a.first_pane(),
            Node::Pane(pane) => *pane,
        }
    }

    /// Removes the first leaf of `pane` whose sibling it is replaced by,
    /// and returns the first pane of that sibling; `None` when no split of
    /// the tree has `pane` as a direct child.
    pub fn remove(&mut self, pane: Pane) -> (r: Option<Pane>)
        ensures
            (*final(self), r) == old(self).removed(pane),
        decreases *old(self),
    {
        let (a_matches, b_matches) = match &*self {
            Node::Split { a, b, .. } => (a.is_pane(pane), b.is_pane(pane)),
            Node::Pane(_) => return None,
        };
        if a_matches || b_matches {
            let mut taken = Node::Pane(pane);
            std::mem::swap(self, &mut taken);
            match taken {
                Node::Split { a, b, .. } => {
                    *self = if a_matches { *b } else { *a };
                    Some(self.first_pane())
                },
                Node::Pane(_) => None,
            }
        } else {
            match self {
                Node::Split { a, b, .. } => {
                    let ghost before = **a;
                    match a.remove(pane) {
                        Some(p) => Some(p),
                        None => {
                            proof {
                                lemma_removed_nothing(before, pane);
                            }
                            b.remove(pane)
                        },
                    }
                },
                Node::Pane(_) => None,
            }
        }
    }

    /// Pushes onto `path` the splits from this node down to the first split
    /// with identifier `split`, each with the side the path leaves it by;
    /// tells whether there is one, and leaves `path` unchanged when not.
    fn split_path(&self, split: Split, path: &mut Vec<(Split, Axis, Branch)>) -> (found: bool)
        ensures
            found == self.has_split(split),
            found ==> final(path)@ == old(path)@ + self.path_to(split),
            !found ==> final(path)@ == old(path)@,
        decreases self,
    {
        match self {
            Node::Split { id, axis, a, b, .. } => {
                if *id == split {
                    assert(final(path)@ =~= old(path)@ + self.path_to(split));
                    return true;
                }
                path.push((*id, *axis, Branch::A));
                if a.split_path(split, path) {
                    assert(final(path)@ =~= old(path)@ + self.path_to(split));
                    return true;
                }
                let _ = path.pop();
                assert(path@ =~= old(path)@);
                path.push((*id, *axis, Branch::B));
                if b.split_path(split, path) {
                    assert(final(path)@ =~= old(path)@ + self.path_to(split));
                    return true;
                }
                let _ = path.pop();
                assert(path@ =~= old(path)@);
                false
            },
            Node::Pane(_) => false,
        }
    }

    /// The ancestors of the first split with identifier `split`, nearest
    /// first, each with its axis and the side the split sits on; empty when
    /// there is no such split.
    pub fn ancestors(&self, split: Split) -> (v: Vec<(Split, Axis, Branch)>)
        ensures
            v@ == self.spec_ancestors(split),
    {
        let mut path = Vec::new();
        if !self.split_path(split, &mut path) {
            assert(self.path_to(split) =~= seq![]) by {
                lemma_path_to_absent(*self, split);
            }
            assert(path@ =~= self.spec_ancestors(split));
            return path;
        }
        assert(path@ =~= self.path_to(split));
        let mut reversed = Vec::new();
        let mut i: usize = path.len();
        while i > 0
            invariant
                i <= path@.len(),
                path@ == self.path_to(split),
                reversed@ =~= path@.subrange(i as int, path@.len() as int).reverse(),
            decreases i,
        {
            i = i - 1;
            reversed.push(path[i]);
            assert(reversed@ =~= path@.subrange(i as int, path@.len() as int).reverse());
        }
        assert(path@.subrange(0, path@.len() as int) =~= path@);
        reversed
    }

    /// The ancestors of the first split with identifier `split` that split
    /// along `axis`, nearest first, each with the side the split sits on.
    pub fn same_axis_ancestors(&self, split: Split, axis: Axis) -> (v: Vec<(Split, Branch)>)
        ensures
            v@ == same_axis(self.spec_ancestors(split), axis),
    {
        let all = self.ancestors(split);
        let mut v = Vec::new();
        let mut i: usize = 0;
        while i < all.len()
            invariant
                i <= all@.len(),
                all@ == self.spec_ancestors(split),
                v@ == same_axis(all@.take(i as int), axis),
            decreases all@.len() - i,
        {
            let (ancestor, ancestor_axis, branch) = all[i];
            assert(all@.take(i + 1).drop_last() =~= all@.take(i as int));
            if ancestor_axis == axis {
                v.push((ancestor, branch));
            }
            i = i + 1;
        }
        assert(all@.take(all@.len() as int) =~= all@);
        v
    }
}

/// A tree without the split has no path to it.
proof fn lemma_path_to_absent(node: Node, s: Split)
    requires
        !node.has_split(s),
    ensures
        node.path_to(s) == Seq::<(Split, Axis, Branch)>::empty(),
{
}


impl Node {
    /// Whether every pane of the tree is in `fixed`.
    pub open spec fn all_fixed(self, fixed: Seq<Pane>) -> bool
        decreases self,
    {
        match self {
            Node::Split { a, b, .. } => a.all_fixed(fixed) && b.all_fixed(fixed),
            Node::Pane(p) => fixed.contains(p),
        }
    }

    /// For the first split with identifier `s`, whether each side is fixed.
    pub open spec fn fixed_sides(self, s: Split, fixed: Seq<Pane>) -> Option<(bool, bool)>
        decreases self,
    {
        match self {
            Node::Split { id, a, b, .. } => if id == s {
                Some((a.all_fixed(fixed), b.all_fixed(fixed)))
            } else {
                match a.fixed_sides(s, fixed) {
                    Some(sides) => Some(sides),
                    None => b.fixed_sides(s, fixed),
                }
            },
            Node::Pane(_) => None,
        }
    }

    /// Whether some split with identifier `s` has, opposite the side
    /// `branch`, a subtree that is not entirely fixed.
    pub open spec fn opposite_target(self, s: Split, branch: Branch, fixed: Seq<Pane>) -> bool
        decreases self,
    {
        match self {
            Node::Split { id, a, b, .. } => if id == s {
                match branch {
                    Branch::A => !b.all_fixed(fixed),
                    Branch::B => !a.all_fixed(fixed),
                }
            } else {
                a.opposite_target(s, branch, fixed) || b.opposite_target(s, branch, fixed)
            },
            Node::Pane(_) => false,
        }
    }

    /// The first candidate `(ancestor, branch)` whose branch differs from
    /// `fixed_branch` and whose opposite side can still be resized.
    pub open spec fn first_proxy(
        self,
        candidates: Seq<(Split, Branch)>,
        fixed_branch: Branch,
        fixed: Seq<Pane>,
    ) -> Option<Split>
        decreases candidates.len(),
    {
        if candidates.len() == 0 {
            None
        } else {
            let (ancestor, branch) = candidates[0];
            if branch != fixed_branch && self.opposite_target(ancestor, branch, fixed) {
                Some(ancestor)
            } else {
                self.first_proxy(candidates.drop_first(), fixed_branch, fixed)
            }
        }
    }

    /// The split a drag of `split` along `axis` resizes: `split` itself,
    /// unless exactly one side of it is fixed, in which case the nearest
    /// same-axis ancestor that holds the split on the other side and has a
    /// resizable subtree opposite it, if any.
    pub open spec fn spec_resize_proxy(self, split: Split, axis: Axis, fixed: Seq<Pane>) -> Split {
        match self.fixed_sides(split, fixed) {
            Some((true, false)) => match self.first_proxy(
                same_axis(self.spec_ancestors(split), axis),
                Branch::A,
                fixed,
            ) {
                Some(ancestor) => ancestor,
                None => split,
            },
            Some((false, true)) => match self.first_proxy(
                same_axis(self.spec_ancestors(split), axis),
                Branch::B,
                fixed,
            ) {
                Some(ancestor) => ancestor,
                None => split,
            },
            _ => split,
        }
    }
}

/// Whether `pane` is one of `fixed`.
fn is_listed(fixed: &Vec<Pane>, pane: Pane) -> (listed: bool)
    ensures
        listed == fixed@.contains(pane),
{
    let mut i: usize = 0;
    while i < fixed.len()
        invariant
            i <= fixed@.len(),
            forall|j: int| 0 <= j < i ==> fixed@[j] != pane,
        decreases fixed@.len() - i,
    {
        if fixed[i] == pane {
            return true;
        }
        i = i + 1;
    }
    false
}

impl Node {
    /// Whether every pane of the tree is one of `fixed`, the panes whose
    /// size cannot change along the axis being resized.
    pub fn is_fixed(&self, fixed: &Vec<Pane>) -> (all: bool)
        ensures
            all == self.all_fixed(fixed@),
        decreases self,
    {
        match self {
            Node::Pane(pane) => is_listed(fixed, *pane),
            Node::Split { a, b, .. } => a.is_fixed(fixed) && b.is_fixed(fixed),
        }
    }

    /// For the first split with identifier `split`, whether its left/top
    /// and its right/bottom side are fixed.
    pub fn split_fixed_sides(&self, split: Split, fixed: &Vec<Pane>) -> (sides: Option<(bool, bool)>)
        ensures
            sides == self.fixed_sides(split, fixed@),
        decreases self,
    {
        match self {
            Node::Split { id, a, b, .. } => {
                if *id == split {
                    Some((a.is_fixed(fixed), b.is_fixed(fixed)))
                } else {
                    match a.split_fixed_sides(split, fixed) {
                        Some(sides) => Some(sides),
                        None => b.split_fixed_sides(split, fixed),
                    }
                }
            },
            Node::Pane(_) => None,
        }
    }

    /// Whether a split with identifier `split` has, opposite `branch`, a
    /// subtree that is not entirely fixed.
    pub fn opposite_has_resize_target(&self, split: Split, branch: Branch, fixed: &Vec<Pane>) -> (has: bool)
        ensures
            has == self.opposite_target(split, branch, fixed@),
        decreases self,
    {
        match self {
            Node::Split { id, a, b, .. } => {
                if *id == split {
                    match branch {
                        Branch::A => !b.is_fixed(fixed),
                        Branch::B => !a.is_fixed(fixed),
                    }
                } else {
                    a.opposite_has_resize_target(split, branch, fixed)
                        || b.opposite_has_resize_target(split, branch, fixed)
                }
            },
            Node::Pane(_) => false,
        }
    }

    /// The split that a drag of `split` along `axis` should resize, so that
    /// a boundary next to a fixed pane moves the nearest flexible one.
    pub fn resize_proxy(&self, split: Split, axis: Axis, fixed: &Vec<Pane>) -> (proxy: Split)
        ensures
            proxy == self.spec_resize_proxy(split, axis, fixed@),
    {
        let (a_fixed, b_fixed) = match self.split_fixed_sides(split, fixed) {
            Some(sides) => sides,
            None => return split,
        };
        let fixed_branch = if a_fixed && !b_fixed {
            Branch::A
        } else if !a_fixed && b_fixed {
            Branch::B
        } else {
            return split;
        };
        let candidates = self.same_axis_ancestors(split, axis);
        let ghost all = candidates@;
        assert(all.subrange(0, all.len() as int) =~= all);
        let mut i: usize = 0;
        while i < candidates.len()
            invariant
                i <= all.len(),
                candidates@ == all,
                self.spec_resize_proxy(split, axis, fixed@) == match self.first_proxy(all, fixed_branch, fixed@) {
                    Some(ancestor) => ancestor,
                    None => split,
                },
                self.first_proxy(all, fixed_branch, fixed@)
                    == self.first_proxy(all.subrange(i as int, all.len() as int), fixed_branch, fixed@),
            decreases all.len() - i,
        {
            let (ancestor, branch) = candidates[i];
            let ghost rest = all.subrange(i as int, all.len() as int);
            assert(rest[0] == (ancestor, branch));
            assert(rest.drop_first() =~= all.subrange(i + 1, all.len() as int));
            if branch != fixed_branch && self.opposite_has_resize_target(ancestor, branch, fixed) {
                return ancestor;
            }
            i = i + 1;
        }
        assert(all.subrange(all.len() as int, all.len() as int).len() == 0);
        split
    }
}


impl Node {
    /// The tree with its first leaf of pane `p` (left/top first) replaced
    /// by `replacement`.
    pub open spec fn replace_first(self, p: Pane, replacement: Node) -> Node
        decreases self,
    {
        match self {
            Node::Split { id, axis, ratio, a, b } => if a.has_pane(p) {
                Node::Split { id, axis, ratio, a: Box::new(a.replace_first(p, replacement)), b }
            } else {
                Node::Split { id, axis, ratio, a, b: Box::new(b.replace_first(p, replacement)) }
            },
            Node::Pane(q) => if q == p {
                replacement
            } else {
                self
            },
        }
    }

    /// Whether the tree has a leaf of pane `pane`.
    pub fn contains_pane(&self, pane: Pane) -> (found: bool)
        ensures
            found == self.has_pane(pane),
        decreases self,
    {
        match self {
            Node::Split { a, b, .. } => a.contains_pane(pane) || b.contains_pane(pane),
            Node::Pane(p) => *p == pane,
        }
    }

    /// The first leaf of `pane`, left/top first, to be changed in place.
    pub fn find(&mut self, pane: Pane) -> (found: Option<&mut Node>)
        ensures
            match found {
                Some(leaf) => {
                    &&& old(self).has_pane(pane)
                    &&& *leaf == Node::Pane(pane)
                    &&& *final(self) == old(self).replace_first(pane, *final(leaf))
                },
                None => !old(self).has_pane(pane) && *final(self) == *old(self),
            },
        decreases *old(self),
    {
        if self.is_pane(pane) {
            return Some(self);
        }
        match self {
            Node::Split { a, b, .. } => {
                if a.contains_pane(pane) {
                    a.find(pane)
                } else {
                    b.find(pane)
                }
            },
            Node::Pane(_) => None,
        }
    }
}


/// The tree that applying `g` to every node gives, each node's children
/// before the node itself.
pub open spec fn map_post_order(node: Node, g: spec_fn(Node) -> Node) -> Node
    decreases node,
{
    match node {
        Node::Split { id, axis, ratio, a, b } => g(
            Node::Split {
                id,
                axis,
                ratio,
                a: Box::new(map_post_order(*a, g)),
                b: Box::new(map_post_order(*b, g)),
            },
        ),
        Node::Pane(_) => g(node),
    }
}

impl Node {
    /// Applies `f` to every node of the tree, each node's children before
    /// the node itself.
    pub fn update<F: Fn(&mut Node)>(&mut self, f: &F)
        requires
            forall|n: &mut Node| #[trigger] f.requires((n,)),
        ensures
            forall|g: spec_fn(Node) -> Node|
                (forall|n: &mut Node| #[trigger] f.ensures((n,), ()) ==> *final(n) == g(*n)) ==> *final(self)
                    == #[trigger] map_post_order(*old(self), g),
        decreases *old(self),
    {
        let ghost before = *self;
        let ghost mut before_a = before;
        let ghost mut before_b = before;
        if let Node::Split { a, b, .. } = self {
            proof {
                before_a = **a;
                before_b = **b;
            }
            a.update(f);
            b.update(f);
        }
        let ghost mid = *self;
        f(self);
        proof {
            assert forall|g: spec_fn(Node) -> Node|
                (forall|n: &mut Node| #[trigger] f.ensures((n,), ()) ==> *final(n) == g(*n))
                implies *final(self) == #[trigger] map_post_order(before, g) by {
                if let Node::Split { id, axis, ratio, a, b } = before {
                    assert(map_post_order(before_a, g) == map_post_order(*a, g));
                    assert(map_post_order(before_b, g) == map_post_order(*b, g));
                    assert(mid == (Node::Split {
                        id,
                        axis,
                        ratio,
                        a: Box::new(map_post_order(*a, g)),
                        b: Box::new(map_post_order(*b, g)),
                    }));
                } else {
                    assert(mid == before);
                }
            }
        }
    }
}

/// The first pane of a tree is one of its panes.
pub proof fn lemma_first_pane_is_a_pane(node: Node)
    ensures
        node.has_pane(node.spec_first_pane()),
    decreases node,
{
    if let Node::Split { a, .. } = node {
        lemma_first_pane_is_a_pane(*a);
    }
}

/// Removing a pane from a split tree that has it always succeeds; what is
/// left holds the same panes but for one leaf of the removed pane, and
/// the pane handed back is one of those left.
pub proof fn law_remove_takes_one_leaf(node: Node, p: Pane)
    ensures
        node is Split && node.has_pane(p) ==> node.removed(p).1 is Some,
        node.removed(p).1 is Some ==> exists|i: int|
            0 <= i < node.panes().len() && node.panes()[i] == p && #[trigger] node.removed(p).0.panes()
                == node.panes().remove(i),
        node.removed(p).1 is Some ==> node.removed(p).0.has_pane(node.removed(p).1->0),
    decreases node,
{
    if let Node::Split { id, axis, ratio, a, b } = node {
        law_remove_takes_one_leaf(*a, p);
        law_remove_takes_one_leaf(*b, p);
        if a.spec_pane() == Some(p) {
            assert(a.panes() == seq![p]);
            assert(node.panes()[0] == p);
            assert(node.removed(p).0.panes() =~= node.panes().remove(0));
            lemma_first_pane_is_a_pane(*b);
        } else if b.spec_pane() == Some(p) {
            assert(b.panes() == seq![p]);
            let i = a.panes().len() as int;
            assert(node.panes()[i] == p);
            assert(node.removed(p).0.panes() =~= node.panes().remove(i));
            lemma_first_pane_is_a_pane(*a);
        } else {
            if a.has_pane(p) {
                assert(*a is Split);
            }
            if b.has_pane(p) {
                assert(*b is Split);
            }
            let (new_a, from_a) = a.removed(p);
            if from_a is Some {
                let i = choose|i: int|
                    0 <= i < a.panes().len() && a.panes()[i] == p && #[trigger] a.removed(p).0.panes()
                        == a.panes().remove(i);
                assert(node.panes()[i] == p);
                assert(node.removed(p).0.panes() =~= node.panes().remove(i));
            } else {
                let (new_b, from_b) = b.removed(p);
                if from_b is Some {
                    let j = choose|j: int|
                        0 <= j < b.panes().len() && b.panes()[j] == p && #[trigger] b.removed(p).0.panes()
                            == b.panes().remove(j);
                    let i = a.panes().len() + j;
                    assert(node.panes()[i] == p);
                    assert(node.removed(p).0.panes() =~= node.panes().remove(i));
                }
            }
        }
    }
}

/// A tree holds a pane exactly when the pane is among its panes.
proof fn lemma_has_pane_is_listed(node: Node, p: Pane)
    ensures
        node.has_pane(p) == node.panes().contains(p),
    decreases node,
{
    if let Node::Split { a, b, .. } = node {
        lemma_has_pane_is_listed(*a, p);
        lemma_has_pane_is_listed(*b, p);
        let all = node.panes();
        if a.has_pane(p) {
            let i = choose|i: int| 0 <= i < a.panes().len() && a.panes()[i] == p;
            assert(all[i] == p);
        }
        if b.has_pane(p) {
            let i = choose|i: int| 0 <= i < b.panes().len() && b.panes()[i] == p;
            assert(all[a.panes().len() + i] == p);
        }
        if all.contains(p) {
            let i = choose|i: int| 0 <= i < all.len() && all[i] == p;
            if i < a.panes().len() {
                assert(a.panes()[i] == p);
            } else {
                assert(b.panes()[i - a.panes().len()] == p);
            }
        }
    } else {
        assert(node.panes()[0] == node->Pane_0);
    }
}

/// Removing a pane the tree does not hold changes nothing.
proof fn lemma_removed_absent(node: Node, p: Pane)
    requires
        !node.has_pane(p),
    ensures
        node.removed(p) == (node, None::<Pane>),
    decreases node,
{
    if let Node::Split { id, axis, ratio, a, b } = node {
        lemma_removed_absent(*a, p);
        lemma_removed_absent(*b, p);
        assert(!a.has_pane(p) && !b.has_pane(p));
        assert(a.spec_pane() != Some(p));
        assert(b.spec_pane() != Some(p));
        assert(node.removed(p) == (Node::Split { id, axis, ratio, a: Box::new(*a), b: Box::new(*b) }, None::<Pane>));
    }
}

/// Closing a pane that occurs once in a split tree takes out its leaf:
/// the leaf's parent split is replaced, wherever it sits, by the leaf's
/// sibling, and the pane handed back is the first pane of that sibling.
pub proof fn law_remove_returns_the_sibling(node: Node, p: Pane)
    requires
        node.panes().no_duplicates(),
        node.has_pane(p),
        node is Split,
    ensures
        ({
            let path = node.pane_path(p);
            let parent = path.drop_last();
            let sibling = node.subtree(parent.push(opposite(path.last())));
            &&& path.len() >= 1
            &&& node.removed(p).1 == Some(sibling.spec_first_pane())
            &&& node.removed(p).0 == node.with_subtree(parent, sibling)
        }),
    decreases node,
{
    if let Node::Split { id, axis, ratio, a, b } = node {
        let pa = a.panes();
        let pb = b.panes();
        assert(node.panes() == pa + pb);
        assert(pa.no_duplicates()) by {
            assert forall|i: int, j: int| 0 <= i < pa.len() && 0 <= j < pa.len() && i != j implies pa[i] != pa[j] by {
                assert(node.panes()[i] == pa[i]);
                assert(node.panes()[j] == pa[j]);
            }
        }
        assert(pb.no_duplicates()) by {
            assert forall|i: int, j: int| 0 <= i < pb.len() && 0 <= j < pb.len() && i != j implies pb[i] != pb[j] by {
                assert(node.panes()[pa.len() + i] == pb[i]);
                assert(node.panes()[pa.len() + j] == pb[j]);
            }
        }
        lemma_has_pane_is_listed(*a, p);
        lemma_has_pane_is_listed(*b, p);
        if a.has_pane(p) && b.has_pane(p) {
            let i = choose|i: int| 0 <= i < pa.len() && pa[i] == p;
            let j = choose|j: int| 0 <= j < pb.len() && pb[j] == p;
            assert(node.panes()[i] == node.panes()[pa.len() + j]);
            assert(false);
        }
        let path = node.pane_path(p);
        if a.spec_pane() == Some(p) {
            assert(a.pane_path(p) == Seq::<Branch>::empty());
            assert(path =~= seq![Branch::A]);
            assert(path.drop_last() =~= Seq::<Branch>::empty());
            assert(path.drop_last().push(Branch::B) =~= seq![Branch::B]);
            assert(seq![Branch::B].drop_first() =~= Seq::<Branch>::empty());
            assert(node.subtree(seq![Branch::B]) == b.subtree(Seq::<Branch>::empty()));
            assert(node.removed(p) == (*b, Some(b.spec_first_pane())));
        } else if b.spec_pane() == Some(p) {
            assert(b.pane_path(p) == Seq::<Branch>::empty());
            assert(path =~= seq![Branch::B]);
            assert(path.drop_last() =~= Seq::<Branch>::empty());
            assert(path.drop_last().push(Branch::A) =~= seq![Branch::A]);
            assert(seq![Branch::A].drop_first() =~= Seq::<Branch>::empty());
            assert(node.subtree(seq![Branch::A]) == a.subtree(Seq::<Branch>::empty()));
            assert(node.removed(p) == (*a, Some(a.spec_first_pane())));
        } else if a.has_pane(p) {
            assert(*a is Split);
            law_remove_returns_the_sibling(*a, p);
            let rest = a.pane_path(p);
            assert(path == seq![Branch::A] + rest);
            let parent = path.drop_last();
            assert(parent =~= seq![Branch::A] + rest.drop_last());
            assert(parent.drop_first() =~= rest.drop_last());
            let to_sibling = parent.push(opposite(path.last()));
            assert(path.last() == rest.last());
            assert(to_sibling.drop_first() =~= rest.drop_last().push(opposite(rest.last())));
            assert(node.subtree(to_sibling) == a.subtree(to_sibling.drop_first()));
            assert(node.with_subtree(parent, node.subtree(to_sibling)) == Node::Split {
                id,
                axis,
                ratio,
                a: Box::new(a.with_subtree(parent.drop_first(), node.subtree(to_sibling))),
                b,
            });
            assert(a.removed(p).1 is Some);
            assert(node.removed(p) == (Node::Split { id, axis, ratio, a: Box::new(a.removed(p).0), b }, a.removed(p).1));
        } else {
            assert(b.has_pane(p));
            assert(*b is Split);
            lemma_removed_absent(*a, p);
            law_remove_returns_the_sibling(*b, p);
            let rest = b.pane_path(p);
            assert(path == seq![Branch::B] + rest);
            let parent = path.drop_last();
            assert(parent =~= seq![Branch::B] + rest.drop_last());
            assert(parent.drop_first() =~= rest.drop_last());
            let to_sibling = parent.push(opposite(path.last()));
            assert(path.last() == rest.last());
            assert(to_sibling.drop_first() =~= rest.drop_last().push(opposite(rest.last())));
            assert(node.subtree(to_sibling) == b.subtree(to_sibling.drop_first()));
            assert(node.with_subtree(parent, node.subtree(to_sibling)) == Node::Split {
                id,
                axis,
                ratio,
                a,
                b: Box::new(b.with_subtree(parent.drop_first(), node.subtree(to_sibling))),
            });
            assert(node.removed(p) == (Node::Split { id, axis, ratio, a, b: Box::new(b.removed(p).0) }, b.removed(p).1));
        }
    }
}

/// Splitting a node keeps its panes in front and appends the new one;
/// the inverse split puts the new pane in front.
pub proof fn law_split_adds_the_new_pane(node: Node, id: Split, axis: Axis, new_pane: Pane)
    ensures
        (Node::Split {
            id,
            axis,
            ratio: Ratio(HALF_BITS),
            a: Box::new(node),
            b: Box::new(Node::Pane(new_pane)),
        }).panes() == node.panes().push(new_pane),
        (Node::Split {
            id,
            axis,
            ratio: Ratio(HALF_BITS),
            a: Box::new(Node::Pane(new_pane)),
            b: Box::new(node),
        }).panes() == seq![new_pane] + node.panes(),
{
    assert(Node::Pane(new_pane).panes() == seq![new_pane]);
    assert((Node::Split {
        id,
        axis,
        ratio: Ratio(HALF_BITS),
        a: Box::new(node),
        b: Box::new(Node::Pane(new_pane)),
    }).panes() =~= node.panes().push(new_pane));
}

/// Setting the ratio of a split changes nothing but that ratio: the
/// panes, the splits and their order stay as they were.
pub proof fn law_resize_keeps_the_shape(node: Node, s: Split, r: Ratio)
    ensures
        node.with_ratio(s, r).panes() == node.panes(),
        node.with_ratio(s, r).split_order() == node.split_order(),
        node.with_ratio(s, r).num_splits() == node.num_splits(),
        forall|t: Split| #[trigger] node.with_ratio(s, r).has_split(t) == node.has_split(t),
    decreases node,
{
    if let Node::Split { a, b, .. } = node {
        law_resize_keeps_the_shape(*a, s, r);
        law_resize_keeps_the_shape(*b, s, r);
        assert forall|t: Split| #[trigger] node.with_ratio(s, r).has_split(t) == node.has_split(t) by {
            assert(a.with_ratio(s, r).has_split(t) == a.has_split(t));
            assert(b.with_ratio(s, r).has_split(t) == b.has_split(t));
        }
    }
}

/// Setting the ratio of a split sets it wherever in the tree the split
/// sits: afterwards the split found under that identifier is the one found
/// before, with the new ratio and nothing else changed; a tree without the
/// split is left as it is.
pub proof fn law_resize_sets_the_named_split(node: Node, s: Split, r: Ratio)
    ensures
        node.has_split(s) ==> match node.split_node(s) {
            Some(Node::Split { id, axis, a, b, .. }) => node.with_ratio(s, r).split_node(s) == Some(
                Node::Split { id, axis, ratio: r, a, b },
            ),
            _ => false,
        },
        !node.has_split(s) ==> node.with_ratio(s, r) == node,
    decreases node,
{
    if !node.has_split(s) {
        lemma_with_ratio_absent(node, s, r);
    }
    if let Node::Split { id, a, b, .. } = node {
        law_resize_sets_the_named_split(*a, s, r);
        law_resize_sets_the_named_split(*b, s, r);
        law_resize_keeps_the_shape(*a, s, r);
    }
}

/// The splits are listed once each: as many as the tree has split nodes,
/// and exactly the identifiers the tree has.
pub proof fn law_splits_lists_every_split(node: Node)
    ensures
        node.split_order().len() == node.num_splits(),
        forall|s: Split| #[trigger] node.split_order().contains(s) <==> node.has_split(s),
    decreases node,
{
    if let Node::Split { id, a, b, .. } = node {
        law_splits_lists_every_split(*a);
        law_splits_lists_every_split(*b);
        let order = node.split_order();
        assert forall|s: Split| #[trigger] order.contains(s) <==> node.has_split(s) by {
            assert(a.split_order().contains(s) == a.has_split(s));
            assert(b.split_order().contains(s) == b.has_split(s));
            if a.has_split(s) {
                let i = choose|i: int| 0 <= i < a.split_order().len() && a.split_order()[i] == s;
                assert(order[1 + b.split_order().len() + i] == s);
            }
            if b.has_split(s) {
                let i = choose|i: int| 0 <= i < b.split_order().len() && b.split_order()[i] == s;
                assert(order[1 + i] == s);
            }
            if id == s {
                assert(order[0] == s);
            }
            if order.contains(s) {
                let i = choose|i: int| 0 <= i < order.len() && order[i] == s;
                if i >= 1 && i < 1 + b.split_order().len() {
                    assert(b.split_order()[i - 1] == s);
                } else if i >= 1 + b.split_order().len() {
                    assert(a.split_order()[i - 1 - b.split_order().len()] == s);
                }
            }
        }
    }
}

/// No subtree stacks more splits along an axis than it has splits.
pub proof fn law_counts_are_bounded_by_splits(node: Node)
    ensures
        node.horizontal_splits() <= node.num_splits(),
        node.vertical_splits() <= node.num_splits(),
{
    lemma_split_counts_bounded(node);
}


/// A proxy found among candidates is one of the candidates.
proof fn lemma_first_proxy_is_a_candidate(
    node: Node,
    candidates: Seq<(Split, Branch)>,
    fixed_branch: Branch,
    fixed: Seq<Pane>,
)
    ensures
        node.first_proxy(candidates, fixed_branch, fixed) is Some ==> exists|i: int|
            0 <= i < candidates.len() && (#[trigger] candidates[i]).0 == node.first_proxy(
                candidates,
                fixed_branch,
                fixed,
            )->0,
    decreases candidates.len(),
{
    if candidates.len() > 0 {
        let rest = candidates.drop_first();
        lemma_first_proxy_is_a_candidate(node, rest, fixed_branch, fixed);
        if node.first_proxy(candidates, fixed_branch, fixed) is Some {
            let (ancestor, branch) = candidates[0];
            if !(branch != fixed_branch && node.opposite_target(ancestor, branch, fixed)) {
                let i = choose|i: int|
                    0 <= i < rest.len() && (#[trigger] rest[i]).0 == node.first_proxy(
                        rest,
                        fixed_branch,
                        fixed,
                    )->0;
                assert(candidates[i + 1] == rest[i]);
            }
        }
    }
}

/// A proxy found among candidates is a candidate on another side than
/// `fixed_branch` whose opposite side can still be resized.
proof fn lemma_first_proxy_is_across(
    node: Node,
    candidates: Seq<(Split, Branch)>,
    fixed_branch: Branch,
    fixed: Seq<Pane>,
)
    ensures
        node.first_proxy(candidates, fixed_branch, fixed) is Some ==> exists|i: int|
            0 <= i < candidates.len() && (#[trigger] candidates[i]).0 == node.first_proxy(
                candidates,
                fixed_branch,
                fixed,
            )->0 && candidates[i].1 != fixed_branch && node.opposite_target(
                candidates[i].0,
                candidates[i].1,
                fixed,
            ),
    decreases candidates.len(),
{
    if candidates.len() > 0 {
        let rest = candidates.drop_first();
        lemma_first_proxy_is_across(node, rest, fixed_branch, fixed);
        if node.first_proxy(candidates, fixed_branch, fixed) is Some {
            let (ancestor, branch) = candidates[0];
            if branch != fixed_branch && node.opposite_target(ancestor, branch, fixed) {
                assert(candidates[0].0 == node.first_proxy(candidates, fixed_branch, fixed)->0);
            } else {
                let i = choose|i: int|
                    0 <= i < rest.len() && (#[trigger] rest[i]).0 == node.first_proxy(
                        rest,
                        fixed_branch,
                        fixed,
                    )->0 && rest[i].1 != fixed_branch && node.opposite_target(rest[i].0, rest[i].1, fixed);
                assert(candidates[i + 1] == rest[i]);
            }
        }
    }
}

/// Each same-axis entry comes from an entry of the path with that axis.
proof fn lemma_same_axis_entry(path: Seq<(Split, Axis, Branch)>, axis: Axis, i: int)
    requires
        0 <= i < same_axis(path, axis).len(),
    ensures
        exists|j: int|
            0 <= j < path.len() && #[trigger] path[j] == (
                same_axis(path, axis)[i].0,
                axis,
                same_axis(path, axis)[i].1,
            ),
    decreases path.len(),
{
    let rest = same_axis(path.drop_last(), axis);
    let last = path.last();
    if i < rest.len() {
        lemma_same_axis_entry(path.drop_last(), axis, i);
        let j = choose|j: int|
            0 <= j < path.drop_last().len() && #[trigger] path.drop_last()[j] == (rest[i].0, axis, rest[i].1);
        assert(path[j] == path.drop_last()[j]);
    } else {
        assert(path[path.len() - 1] == last);
    }
}

/// A drag moves another split only when exactly one side of the dragged
/// split is fixed, and then an ancestor that splits along the same axis,
/// holds the dragged split on the side opposite its fixed side (in its
/// right/bottom subtree when the left/top side is fixed, in its left/top
/// subtree when the right/bottom side is fixed) and can still resize the
/// subtree opposite that.
pub proof fn law_proxy_lies_beyond_the_fixed_side(node: Node, split: Split, axis: Axis, fixed: Seq<Pane>)
    ensures
        ({
            let proxy = node.spec_resize_proxy(split, axis, fixed);
            proxy != split ==> match node.fixed_sides(split, fixed) {
                Some((true, false)) => exists|j: int|
                    0 <= j < node.spec_ancestors(split).len() && #[trigger] node.spec_ancestors(split)[j] == (
                        proxy,
                        axis,
                        Branch::B,
                    ) && node.opposite_target(proxy, Branch::B, fixed),
                Some((false, true)) => exists|j: int|
                    0 <= j < node.spec_ancestors(split).len() && #[trigger] node.spec_ancestors(split)[j] == (
                        proxy,
                        axis,
                        Branch::A,
                    ) && node.opposite_target(proxy, Branch::A, fixed),
                _ => false,
            }
        }),
{
    let path = node.spec_ancestors(split);
    let candidates = same_axis(path, axis);
    let proxy = node.spec_resize_proxy(split, axis, fixed);
    lemma_first_proxy_is_across(node, candidates, Branch::A, fixed);
    lemma_first_proxy_is_across(node, candidates, Branch::B, fixed);
    if proxy != split {
        match node.fixed_sides(split, fixed) {
            Some((true, false)) => {
                let i = choose|i: int|
                    0 <= i < candidates.len() && (#[trigger] candidates[i]).0 == node.first_proxy(
                        candidates,
                        Branch::A,
                        fixed,
                    )->0 && candidates[i].1 != Branch::A && node.opposite_target(
                        candidates[i].0,
                        candidates[i].1,
                        fixed,
                    );
                lemma_same_axis_entry(path, axis, i);
            },
            Some((false, true)) => {
                let i = choose|i: int|
                    0 <= i < candidates.len() && (#[trigger] candidates[i]).0 == node.first_proxy(
                        candidates,
                        Branch::B,
                        fixed,
                    )->0 && candidates[i].1 != Branch::B && node.opposite_target(
                        candidates[i].0,
                        candidates[i].1,
                        fixed,
                    );
                lemma_same_axis_entry(path, axis, i);
            },
            _ => {},
        }
    }
}

/// A drag is redirected, if at all, to an ancestor of the dragged split
/// that splits along the same axis.
pub proof fn law_proxy_is_a_same_axis_ancestor(node: Node, split: Split, axis: Axis, fixed: Seq<Pane>)
    ensures
        node.spec_resize_proxy(split, axis, fixed) == split || exists|i: int|
            0 <= i < same_axis(node.spec_ancestors(split), axis).len() && (#[trigger] same_axis(
                node.spec_ancestors(split),
                axis,
            )[i]).0 == node.spec_resize_proxy(split, axis, fixed),
{
    let candidates = same_axis(node.spec_ancestors(split), axis);
    lemma_first_proxy_is_a_candidate(node, candidates, Branch::A, fixed);
    lemma_first_proxy_is_a_candidate(node, candidates, Branch::B, fixed);
}

} // verus!
