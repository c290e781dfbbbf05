use vstd::prelude::*;
use vstd::multiset::Multiset;
use vstd::seq_lib::group_to_multiset_ensures;

verus! {

/// Depth at which the hierarchy stops splitting: the elements left at that
/// depth are gathered into one flat group.
pub const MAX_SPLIT_DEPTH: usize = 6;

/// Order keys of the minimum corner of an element's bounding box, one per
/// axis. Comparing keys along an axis compares the corners along that axis.
#[derive(Clone, Copy, Debug, PartialEq, Eq)]
pub struct CornerKey {
    pub x: u64,
    pub y: u64,
    pub z: u64,
}

impl CornerKey {
    /// The key along axis 0 (x), 1 (y) or 2 (z).
    pub open spec fn spec_along(self, axis: int) -> u64 {
        if axis == 0 {
            self.x
        } else if axis == 1 {
            self.y
        } else {
            self.z
        }
    }

    pub fn along(&self, axis: usize) -> (r: u64)
        requires
            axis < 3,
        ensures
            r == self.spec_along(axis as int),
    {
        if axis == 0 {
            self.x
        } else if axis == 1 {
            self.y
        } else {
            self.z
        }
    }
}

/// The key of element `e` (an index into `keys`) along `axis`.
pub open spec fn key_of(keys: Seq<CornerKey>, e: usize, axis: int) -> u64 {
    keys[e as int].spec_along(axis)
}

/// Every element of `elems` indexes into `keys`.
pub open spec fn indexes_into(elems: Seq<usize>, keys: Seq<CornerKey>) -> bool {
    forall|i: int| 0 <= i < elems.len() ==> (#[trigger] elems[i]) < keys.len()
}

/// `elems` is in non-decreasing key order along `axis`.
pub open spec fn sorted_along(keys: Seq<CornerKey>, elems: Seq<usize>, axis: int) -> bool {
    forall|i: int, j: int|
        0 <= i < j < elems.len() ==> key_of(keys, #[trigger] elems[i], axis) <= key_of(
            keys,
            #[trigger] elems[j],
            axis,
        )
}

/// Sorts elements by their key along `axis` (insertion sort).
fn sort_along(keys: &Vec<CornerKey>, elems: Vec<usize>, axis: usize) -> (r: Vec<usize>)
    requires
        axis < 3,
        indexes_into(elems@, keys@),
    ensures
        r@.to_multiset() == elems@.to_multiset(),
        sorted_along(keys@, r@, axis as int),
        indexes_into(r@, keys@),
{
    broadcast use group_to_multiset_ensures;

    let mut out: Vec<usize> = Vec::new();
    let mut i: usize = 0;
    while i < elems.len()
        invariant
            axis < 3,
            i <= elems.len(),
            indexes_into(elems@, keys@),
            indexes_into(out@, keys@),
            out@.to_multiset() == elems@.subrange(0, i as int).to_multiset(),
            sorted_along(keys@, out@, axis as int),
        decreases elems.len() - i,
    {
        let e = elems[i];
        let k = keys[e].along(axis);
        let mut pos: usize = 0;
        while pos < out.len() && keys[out[pos]].along(axis) <= k
            invariant
                axis < 3,
                pos <= out.len(),
                indexes_into(out@, keys@),
                k == key_of(keys@, e, axis as int),
                forall|j: int| 0 <= j < pos ==> key_of(keys@, #[trigger] out@[j], axis as int) <= k,
            decreases out.len() - pos,
        {
            pos += 1;
        }
        let ghost before = out@;
        out.insert(pos, e);
        assert(elems@.subrange(0, i + 1) == elems@.subrange(0, i as int).push(e));
        assert(out@ == before.insert(pos as int, e));
        proof {
            vstd::seq_lib::to_multiset_insert(before, pos as int, e);
            vstd::seq_lib::to_multiset_build(elems@.subrange(0, i as int), e);
        }
        assert(sorted_along(keys@, out@, axis as int)) by {
            assert forall|a: int, b: int| 0 <= a < b < out@.len() implies key_of(
                keys@,
                #[trigger] out@[a],
                axis as int,
            ) <= key_of(keys@, #[trigger] out@[b], axis as int) by {
                if b > pos {
                    // The element at `pos` before the insertion has a key above `k`.
                    assert(out@[b] == before[b - 1]);
                    if a > pos {
                        assert(out@[a] == before[a - 1]);
                    } else if pos < b - 1 {
                        assert(key_of(keys@, before[pos as int], axis as int) <= key_of(
                            keys@,
                            before[b - 1],
                            axis as int,
                        ));
                    }
                }
            }
        }
        i += 1;
    }
    assert(elems@.subrange(0, elems.len() as int) == elems@);
    out
}

/// The shape of a bounding volume hierarchy over elements numbered by their
/// position in the input. Bounding boxes are attached by the caller.
#[derive(Debug)]
pub enum BvhNode {
    /// A single element under its own box.
    Item(usize),
    /// Several elements under one box, tested one after another.
    Group(Vec<usize>),
    /// An internal node with a left and a right subtree.
    Split(Box<BvhNode>, Box<BvhNode>),
}

impl BvhNode {
    /// The elements under this node, left to right.
    pub open spec fn elements(self) -> Seq<usize>
        decreases self,
    {
        match self {
            BvhNode::Item(e) => seq![e],
            BvhNode::Group(v) => v@,
            BvhNode::Split(l, r) => l.elements() + r.elements(),
        }
    }

    /// The largest number of internal nodes on a path from this node to a leaf.
    pub open spec fn split_levels(self) -> nat
        decreases self,
    {
        match self {
            BvhNode::Item(_) => 0,
            BvhNode::Group(_) => 0,
            BvhNode::Split(l, r) => {
                let a = l.split_levels();
                let b = r.split_levels();
                1 + if a >= b {
                    a
                } else {
                    b
                }
            },
        }
    }
}

/// The axis along which a node at `depth` is split: x, y, z in turn.
pub open spec fn split_axis(depth: nat) -> int {
    (depth % 3) as int
}

/// Whether `node` is a hierarchy that median splitting builds over the
/// elements `elems` when it starts at `depth`: one element stands alone; from
/// the cutoff depth on, two or more form a group; above it they are ordered
/// by key along the depth's axis and the lower half (rounded down) goes left.
/// Elements with equal keys may fall on either side.
pub open spec fn is_built_from(
    node: BvhNode,
    keys: Seq<CornerKey>,
    elems: Multiset<usize>,
    depth: nat,
) -> bool
    decreases node,
{
    match node {
        BvhNode::Item(e) => elems == Multiset::singleton(e),
        BvhNode::Group(v) => {
            &&& depth >= MAX_SPLIT_DEPTH
            &&& elems.len() >= 2
            &&& v@.to_multiset() == elems
        },
        BvhNode::Split(l, r) => {
            let left = l.elements().to_multiset();
            let right = r.elements().to_multiset();
            &&& depth < MAX_SPLIT_DEPTH
            &&& elems.len() >= 2
            &&& left.add(right) == elems
            &&& left.len() == elems.len() / 2
            &&& forall|a: usize, b: usize|
                left.contains(a) && right.contains(b) ==> key_of(keys, a, split_axis(depth))
                    <= key_of(keys, b, split_axis(depth))
            &&& is_built_from(*l, keys, left, depth + 1)
            &&& is_built_from(*r, keys, right, depth + 1)
        },
    }
}

/// The elements `0..n`, each once.
pub open spec fn all_elements(n: nat) -> Multiset<usize> {
    Seq::new(n, |i: int| i as usize).to_multiset()
}

/// A hierarchy holds exactly the elements it was built from, each as often as
/// it was given: none is lost and none is added.
pub proof fn lemma_built_keeps_elements(
    node: BvhNode,
    keys: Seq<CornerKey>,
    elems: Multiset<usize>,
    depth: nat,
)
    requires
        is_built_from(node, keys, elems, depth),
    ensures
        node.elements().to_multiset() == elems,
    decreases node,
{
    broadcast use group_to_multiset_ensures;

    match node {
        BvhNode::Item(e) => {
            assert(seq![e] == Seq::<usize>::empty().push(e));
            assert(Multiset::<usize>::empty().insert(e) =~= Multiset::singleton(e));
        },
        BvhNode::Group(_) => {},
        BvhNode::Split(l, r) => {
            vstd::seq_lib::lemma_multiset_commutative(l.elements(), r.elements());
        },
    }
}

/// Splitting stops at the cutoff: a hierarchy built from the root has at most
/// `MAX_SPLIT_DEPTH` internal nodes on any path, whatever the keys.
pub proof fn lemma_built_depth_is_bounded(
    node: BvhNode,
    keys: Seq<CornerKey>,
    elems: Multiset<usize>,
    depth: nat,
)
    requires
        is_built_from(node, keys, elems, depth),
        depth <= MAX_SPLIT_DEPTH,
    ensures
        depth + node.split_levels() <= MAX_SPLIT_DEPTH,
    decreases node,
{
    if let BvhNode::Split(l, r) = node {
        let left = l.elements().to_multiset();
        let right = r.elements().to_multiset();
        lemma_built_depth_is_bounded(*l, keys, left, depth + 1);
        lemma_built_depth_is_bounded(*r, keys, right, depth + 1);
    }
}

/// Builds the hierarchy over `elems` from `depth` down.
fn build_rec(keys: &Vec<CornerKey>, elems: Vec<usize>, depth: usize) -> (r: Option<BvhNode>)
    requires
        indexes_into(elems@, keys@),
    ensures
        r is None <==> elems.len() == 0,
        r matches Some(node) ==> is_built_from(node, keys@, elems@.to_multiset(), depth as nat),
    decreases elems.len(),
{
    broadcast use group_to_multiset_ensures;

    let length = elems.len();
    if length == 0 {
        None
    } else if length == 1 {
        let e = elems[0];
        assert(elems@ == Seq::<usize>::empty().push(e));
        assert(elems@.to_multiset() =~= Multiset::singleton(e));
        Some(BvhNode::Item(e))
    } else if depth >= MAX_SPLIT_DEPTH {
        Some(BvhNode::Group(elems))
    } else {
        let axis = depth % 3;
        let ghost given = elems@;
        let mut left_elems = sort_along(keys, elems, axis);
        let ghost sorted = left_elems@;
        assert(sorted.len() == given.len()) by {
            assert(sorted.to_multiset().len() == given.to_multiset().len());
        }
        let right_elems = left_elems.split_off(length / 2);
        proof {
            assert(sorted =~= left_elems@ + right_elems@);
            vstd::seq_lib::lemma_multiset_commutative(left_elems@, right_elems@);
        }
        let left = build_rec(keys, left_elems, depth + 1);
        let right = build_rec(keys, right_elems, depth + 1);
        match (left, right) {
            (Some(l), Some(r)) => {
                proof {
                    lemma_built_keeps_elements(l, keys@, left_elems@.to_multiset(), (depth + 1) as nat);
                    lemma_built_keeps_elements(r, keys@, right_elems@.to_multiset(), (depth + 1) as nat);
                    let half = (length / 2) as int;
                    assert forall|a: usize, b: usize|
                        left_elems@.to_multiset().contains(a) && right_elems@.to_multiset().contains(b)
                        implies key_of(keys@, a, split_axis(depth as nat))
                            <= key_of(keys@, b, split_axis(depth as nat)) by {
                        let ia = choose|ia: int| 0 <= ia < left_elems@.len() && left_elems@[ia] == a;
                        let ib = choose|ib: int| 0 <= ib < right_elems@.len() && right_elems@[ib] == b;
                        assert(sorted[ia] == a);
                        assert(sorted[half + ib] == b);
                    }
                }
                Some(BvhNode::Split(Box::new(l), Box::new(r)))
            },
            _ => None,
        }
    }
}

/// Builds a bounding volume hierarchy over elements whose boxes have the
/// minimum-corner keys `keys`; element `i` is the one with key `keys[i]`.
/// Gives `None` exactly when there are no elements.
pub fn build(keys: &Vec<CornerKey>) -> (r: Option<BvhNode>)
    ensures
        r is None <==> keys.len() == 0,
        r matches Some(node) ==> is_built_from(node, keys@, all_elements(keys.len() as nat), 0),
{
    let mut elems: Vec<usize> = Vec::new();
    let mut i: usize = 0;
    while i < keys.len()
        invariant
            i <= keys.len(),
            elems@ == Seq::new(i as nat, |j: int| j as usize),
        decreases keys.len() - i,
    {
        elems.push(i);
        i += 1;
    }
    build_rec(keys, elems, 0)
}

} // verus!
