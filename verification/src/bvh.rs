use crate::random::random_index;
use std::cmp::Ordering;
use vstd::prelude::*;

verus! {

/// What the hierarchy needs to know of one object: which object it is, and
/// where its bounding box begins along each axis. The three keys are integers
/// that are ordered as the coordinates they stand for.
#[derive(Clone, Copy, Debug, PartialEq, Eq, Structural)]
pub struct BoxKey {
    pub object: usize,
    pub min_x: i64,
    pub min_y: i64,
    pub min_z: i64,
}

/// The place that the double-precision number with the bit pattern `bits`
/// takes in the total order of such numbers: numbers with the sign bit clear
/// stand at their magnitude bits, and numbers with the sign bit set stand
/// below them all, the lower the larger their magnitude bits are.
pub open spec fn order_of_bits(bits: u64) -> int {
    if bits < 0x8000_0000_0000_0000 {
        bits as int
    } else {
        -1 - (bits - 0x8000_0000_0000_0000)
    }
}

/// The sort key of the coordinate with the bit pattern `bits`.
pub fn sort_key(bits: u64) -> (key: i64)
    ensures
        key == order_of_bits(bits),
{
    if bits < 0x8000_0000_0000_0000 {
        bits as i64
    } else {
        -1 - ((bits - 0x8000_0000_0000_0000) as i64)
    }
}

impl BoxKey {
    /// The key of object number `object` whose bounding box has its minimum
    /// corner at the coordinates with the bit patterns `x`, `y` and `z`.
    pub fn from_bits(object: usize, x: u64, y: u64, z: u64) -> (key: BoxKey)
        ensures
            key.object == object,
            key.min_x == order_of_bits(x),
            key.min_y == order_of_bits(y),
            key.min_z == order_of_bits(z),
    {
        BoxKey { object, min_x: sort_key(x), min_y: sort_key(y), min_z: sort_key(z) }
    }

    /// The key of object number `object` from the minimum corner of its
    /// bounding box, given by the bit patterns of its coordinates. An object
    /// without a bounding box is ordered as if its box began at the origin.
    pub fn from_corner(object: usize, corner: Option<(u64, u64, u64)>) -> (key: BoxKey)
        ensures
            key.object == object,
            corner matches Some(c) ==> key.min_x == order_of_bits(c.0) && key.min_y
                == order_of_bits(c.1) && key.min_z == order_of_bits(c.2),
            corner is None ==> key.min_x == 0 && key.min_y == 0 && key.min_z == 0,
    {
        match corner {
            Some((x, y, z)) => BoxKey::from_bits(object, x, y, z),
            None => BoxKey::from_bits(object, 0, 0, 0),
        }
    }

    /// The key along `axis`: 0 is x, 1 is y, anything else is z.
    pub open spec fn key(self, axis: usize) -> i64 {
        if axis == 0 {
            self.min_x
        } else if axis == 1 {
            self.min_y
        } else {
            self.min_z
        }
    }

    /// The key along `axis`.
    pub fn min_key(&self, axis: usize) -> (k: i64)
        ensures
            k == self.key(axis),
    {
        if axis == 0 {
            self.min_x
        } else if axis == 1 {
            self.min_y
        } else {
            self.min_z
        }
    }
}

/// A child of a node: one object of the scene, a further node, or nothing
/// at all, which only the node over a scene without objects has.
#[derive(Debug)]
pub enum BvhChild {
    Empty,
    Object(BoxKey),
    Subtree(Box<BVHNode>),
}

/// A node of the hierarchy. Every node has two children.
#[derive(Debug)]
pub struct BVHNode {
    pub left: BvhChild,
    pub right: BvhChild,
}

/// How two keys compare.
pub open spec fn key_order(a: i64, b: i64) -> Ordering {
    if a < b {
        Ordering::Less
    } else if a == b {
        Ordering::Equal
    } else {
        Ordering::Greater
    }
}

/// The keys along `axis` never decrease from one element to the next.
pub open spec fn sorted_on(s: Seq<BoxKey>, axis: usize) -> bool {
    forall|i: int, j: int| 0 <= i <= j < s.len() ==> s[i].key(axis) <= s[j].key(axis)
}

/// The elements of `s` whose key along `axis` is `k`, in the order of `s`.
pub open spec fn with_key(s: Seq<BoxKey>, axis: usize, k: i64) -> Seq<BoxKey> {
    s.filter(|o: BoxKey| o.key(axis) == k)
}

/// `sorted` holds the elements of `unsorted` in the order of their keys along
/// `axis`, and elements with equal keys in the order they had in `unsorted`.
pub open spec fn is_stable_sort_of(sorted: Seq<BoxKey>, unsorted: Seq<BoxKey>, axis: usize) -> bool {
    &&& sorted.len() == unsorted.len()
    &&& sorted.to_multiset() == unsorted.to_multiset()
    &&& sorted_on(sorted, axis)
    &&& forall|k: i64| #[trigger] with_key(sorted, axis, k) == with_key(unsorted, axis, k)
}

/// The node over two objects: the one with the smaller key along `axis` goes
/// left; on equal keys the second goes left.
pub open spec fn pair_on(first: BoxKey, second: BoxKey, axis: usize) -> BVHNode {
    if first.key(axis) < second.key(axis) {
        BVHNode { left: BvhChild::Object(first), right: BvhChild::Object(second) }
    } else {
        BVHNode { left: BvhChild::Object(second), right: BvhChild::Object(first) }
    }
}

impl BvhChild {
    /// The objects below this child, from left to right.
    pub open spec fn leaves(self) -> Seq<BoxKey>
        decreases self,
    {
        match self {
            BvhChild::Empty => Seq::empty(),
            BvhChild::Object(o) => seq![o],
            BvhChild::Subtree(n) => n.left.leaves() + n.right.leaves(),
        }
    }
}

impl BVHNode {
    /// The objects below this node, from left to right.
    pub open spec fn leaves(self) -> Seq<BoxKey> {
        self.left.leaves() + self.right.leaves()
    }

    /// This node is a hierarchy over `objects`, whatever axes were drawn.
    ///
    /// Over no objects both children are empty.
    /// Over one object both children are that object. Over two, the children
    /// are the two objects in the order of their keys along some axis. Over
    /// more, the objects are sorted along some axis, keeping the order of
    /// equal keys, and cut in the middle: the left child is a hierarchy over
    /// the first half and the right child one over the rest.
    pub open spec fn built_from(self, objects: Seq<BoxKey>) -> bool
        decreases objects.len(),
    {
        if objects.len() == 0 {
            self.left == BvhChild::Empty && self.right == BvhChild::Empty
        } else if objects.len() == 1 {
            self.left == BvhChild::Object(objects[0]) && self.right == BvhChild::Object(
                objects[0],
            )
        } else if objects.len() == 2 {
            exists|axis: usize| axis <= 2 && self == #[trigger] pair_on(objects[0], objects[1], axis)
        } else {
            exists|axis: usize, sorted: Seq<BoxKey>|
                {
                    &&& axis <= 2
                    &&& #[trigger] is_stable_sort_of(sorted, objects, axis)
                    &&& self.left matches BvhChild::Subtree(l)
                    &&& self.right matches BvhChild::Subtree(r)
                    &&& l.built_from(sorted.subrange(0, sorted.len() as int / 2))
                    &&& r.built_from(sorted.subrange(sorted.len() as int / 2, sorted.len() as int))
                }
        }
    }
}

impl BvhChild {
    /// Below this child every node is cut along some axis.
    pub open spec fn well_split(self) -> bool
        decreases self,
    {
        match self {
            BvhChild::Empty => true,
            BvhChild::Object(_) => true,
            BvhChild::Subtree(n) => (exists|axis: usize| axis <= 2 && #[trigger] n.split_on(axis))
                && n.left.well_split() && n.right.well_split(),
        }
    }
}

impl BVHNode {
    /// Along `axis` no object on the left begins after one on the right.
    pub open spec fn split_on(self, axis: usize) -> bool {
        forall|i: int, j: int|
            0 <= i < self.left.leaves().len() && 0 <= j < self.right.leaves().len()
                ==> self.left.leaves()[i].key(axis) <= self.right.leaves()[j].key(axis)
    }

    /// This node and every node below it is cut along some axis.
    pub open spec fn well_split(self) -> bool {
        (exists|axis: usize| axis <= 2 && #[trigger] self.split_on(axis))
            && self.left.well_split() && self.right.well_split()
    }
}

impl BvhChild {
    /// The number of nodes on the longest way down from this child.
    pub open spec fn depth(self) -> nat
        decreases self,
    {
        match self {
            BvhChild::Empty => 0,
            BvhChild::Object(_) => 0,
            BvhChild::Subtree(n) => 1 + if n.left.depth() >= n.right.depth() {
                n.left.depth()
            } else {
                n.right.depth()
            },
        }
    }
}

impl BVHNode {
    /// The number of nodes on the longest way from this node to an object.
    pub open spec fn depth(self) -> nat {
        1 + if self.left.depth() >= self.right.depth() {
            self.left.depth()
        } else {
            self.right.depth()
        }
    }
}

/// The axis and the sorted sequence by which a hierarchy over three or more
/// objects was cut in two.
proof fn lemma_cut(node: BVHNode, objects: Seq<BoxKey>) -> (cut: (usize, Seq<BoxKey>))
    requires
        node.built_from(objects),
        objects.len() >= 3,
    ensures
        cut.0 <= 2,
        is_stable_sort_of(cut.1, objects, cut.0),
        node.left is Subtree,
        node.right is Subtree,
        node.left->Subtree_0.built_from(cut.1.subrange(0, cut.1.len() as int / 2)),
        node.right->Subtree_0.built_from(
            cut.1.subrange(cut.1.len() as int / 2, cut.1.len() as int),
        ),
{
    choose|axis: usize, sorted: Seq<BoxKey>|
        {
            &&& axis <= 2
            &&& #[trigger] is_stable_sort_of(sorted, objects, axis)
            &&& node.left matches BvhChild::Subtree(l)
            &&& node.right matches BvhChild::Subtree(r)
            &&& l.built_from(sorted.subrange(0, sorted.len() as int / 2))
            &&& r.built_from(sorted.subrange(sorted.len() as int / 2, sorted.len() as int))
        }
}

/// A hierarchy over two or more objects is shallow: each level down halves
/// the objects, so a hierarchy of depth `d` holds more than `2^(d-1)` objects.
pub proof fn lemma_depth_is_logarithmic(node: BVHNode, objects: Seq<BoxKey>)
    requires
        node.built_from(objects),
    ensures
        node.depth() >= 1,
        objects.len() <= 2 ==> node.depth() == 1,
        objects.len() >= 2 ==> vstd::arithmetic::power2::pow2((node.depth() - 1) as nat)
            < objects.len(),
    decreases objects.len(),
{
    vstd::arithmetic::power2::lemma2_to64();
    if objects.len() <= 1 {
    } else if objects.len() == 2 {
        let axis = choose|axis: usize| axis <= 2 && node == #[trigger] pair_on(objects[0], objects[1], axis);
    } else {
        let (axis, sorted) = lemma_cut(node, objects);
        let n = sorted.len() as int;
        let mid = n / 2;
        let l = node.left->Subtree_0;
        let r = node.right->Subtree_0;
        lemma_depth_is_logarithmic(*l, sorted.subrange(0, mid));
        lemma_depth_is_logarithmic(*r, sorted.subrange(mid, n));
        assert(node.left.depth() == l.depth());
        assert(node.right.depth() == r.depth());
        let deeper = if l.depth() >= r.depth() {
            l.depth()
        } else {
            r.depth()
        };
        assert(node.depth() == 1 + deeper);
        vstd::arithmetic::power2::lemma_pow2_unfold(deeper);
    }
}

/// A hierarchy holds the objects it was built over and no others: an object
/// is among its leaves exactly if it was among the objects given.
pub proof fn lemma_leaves_are_the_objects(node: BVHNode, objects: Seq<BoxKey>)
    requires
        node.built_from(objects),
    ensures
        forall|o: BoxKey| node.leaves().contains(o) <==> objects.contains(o),
    decreases objects.len(),
{
    let leaves = node.leaves();
    if objects.len() == 0 {
        assert(leaves =~= Seq::<BoxKey>::empty());
    } else if objects.len() == 1 {
        assert(leaves =~= seq![objects[0], objects[0]]);
        assert forall|o: BoxKey| leaves.contains(o) <==> objects.contains(o) by {
            if leaves.contains(o) {
                assert(o == objects[0]);
            }
            if objects.contains(o) {
                assert(leaves[0] == o);
            }
        }
    } else if objects.len() == 2 {
        let axis = choose|axis: usize| axis <= 2 && node == #[trigger] pair_on(objects[0], objects[1], axis);
        assert(leaves =~= seq![objects[0], objects[1]] || leaves =~= seq![objects[1], objects[0]]);
        assert forall|o: BoxKey| leaves.contains(o) <==> objects.contains(o) by {
            if leaves.contains(o) {
                assert(o == objects[0] || o == objects[1]);
            }
            if objects.contains(o) {
                assert(leaves[0] == o || leaves[1] == o);
            }
        }
    } else {
        let (axis, sorted) = lemma_cut(node, objects);
        let mid = sorted.len() as int / 2;
        let first = sorted.subrange(0, mid);
        let rest = sorted.subrange(mid, sorted.len() as int);
        let l = node.left->Subtree_0;
        let r = node.right->Subtree_0;
        lemma_leaves_are_the_objects(*l, first);
        lemma_leaves_are_the_objects(*r, rest);
        assert(sorted =~= first + rest);
        sorted.to_multiset_ensures();
        objects.to_multiset_ensures();
        assert(node.left.leaves() == l.leaves());
        assert(node.right.leaves() == r.leaves());
        assert forall|o: BoxKey| leaves.contains(o) <==> objects.contains(o) by {
            lemma_contains_concat(l.leaves(), r.leaves(), o);
            lemma_contains_concat(first, rest, o);
            assert(sorted.contains(o) <==> sorted.to_multiset().count(o) > 0);
            assert(objects.contains(o) <==> objects.to_multiset().count(o) > 0);
        }
    }
}

/// An element is in a concatenation exactly if it is in one of the parts.
proof fn lemma_contains_concat(a: Seq<BoxKey>, b: Seq<BoxKey>, o: BoxKey)
    ensures
        (a + b).contains(o) <==> a.contains(o) || b.contains(o),
{
    if a.contains(o) {
        let i = choose|i: int| 0 <= i < a.len() && a[i] == o;
        assert((a + b)[i] == o);
    }
    if b.contains(o) {
        let i = choose|i: int| 0 <= i < b.len() && b[i] == o;
        assert((a + b)[a.len() + i] == o);
    }
    if (a + b).contains(o) {
        let i = choose|i: int| 0 <= i < (a + b).len() && (a + b)[i] == o;
        if i < a.len() {
            assert(a[i] == o);
        } else {
            assert(b[i - a.len()] == o);
        }
    }
}

/// A hierarchy is a search structure: at every node there is an axis along
/// which no object of the left child begins after an object of the right one.
pub proof fn lemma_built_is_well_split(node: BVHNode, objects: Seq<BoxKey>)
    requires
        node.built_from(objects),
    ensures
        node.well_split(),
    decreases objects.len(),
{
    if objects.len() <= 1 {
        assert(node.split_on(0));
    } else if objects.len() == 2 {
        let axis = choose|axis: usize| axis <= 2 && node == #[trigger] pair_on(objects[0], objects[1], axis);
        assert(node.split_on(axis));
    } else {
        let (axis, sorted) = lemma_cut(node, objects);
        let mid = sorted.len() as int / 2;
        let first = sorted.subrange(0, mid);
        let rest = sorted.subrange(mid, sorted.len() as int);
        let l = node.left->Subtree_0;
        let r = node.right->Subtree_0;
        lemma_built_is_well_split(*l, first);
        lemma_built_is_well_split(*r, rest);
        lemma_leaves_are_the_objects(*l, first);
        lemma_leaves_are_the_objects(*r, rest);
        assert forall|i: int, j: int|
            0 <= i < node.left.leaves().len() && 0 <= j < node.right.leaves().len()
                implies node.left.leaves()[i].key(axis) <= node.right.leaves()[j].key(axis) by {
            let a = node.left.leaves()[i];
            let b = node.right.leaves()[j];
            assert(node.left.leaves() == l.leaves());
            assert(node.right.leaves() == r.leaves());
            assert(l.leaves()[i] == a && l.leaves().contains(a));
            assert(r.leaves()[j] == b && r.leaves().contains(b));
            assert(first.contains(a));
            assert(rest.contains(b));
            let ia = choose|k: int| 0 <= k < first.len() && first[k] == a;
            let ib = choose|k: int| 0 <= k < rest.len() && rest[k] == b;
            assert(sorted[ia] == a);
            assert(sorted[mid + ib] == b);
        }
        assert(node.split_on(axis));
    }
}

/// Orders two objects by the minimum of their boxes along `axis`.
pub fn box_compare(a: &BoxKey, b: &BoxKey, axis: usize) -> (o: Ordering)
    requires
        axis <= 2,
    ensures
        o == key_order(a.key(axis), b.key(axis)),
{
    let ka = a.min_key(axis);
    let kb = b.min_key(axis);
    if ka < kb {
        Ordering::Less
    } else if ka == kb {
        Ordering::Equal
    } else {
        Ordering::Greater
    }
}

pub fn box_x_compare(a: &BoxKey, b: &BoxKey) -> (o: Ordering)
    ensures
        o == key_order(a.min_x, b.min_x),
{
    box_compare(a, b, 0)
}

pub fn box_y_compare(a: &BoxKey, b: &BoxKey) -> (o: Ordering)
    ensures
        o == key_order(a.min_y, b.min_y),
{
    box_compare(a, b, 1)
}

pub fn box_z_compare(a: &BoxKey, b: &BoxKey) -> (o: Ordering)
    ensures
        o == key_order(a.min_z, b.min_z),
{
    box_compare(a, b, 2)
}

/// `sort_by` of the standard library, with `box_compare` along `axis` as the
/// order. The standard library documents the sort as stable: afterwards the
/// vector holds the same elements, their keys never decrease, and elements
/// with equal keys keep the order they had.
#[verifier::external_body]
fn sort_by_axis(objects: &mut Vec<BoxKey>, axis: usize)
    requires
        axis <= 2,
    ensures
        is_stable_sort_of(final(objects)@, old(objects)@, axis),
{
    objects.sort_by(|a, b| box_compare(a, b, axis));
}

/// The node over two objects, ordered along `axis`: the one with the smaller
/// key goes left, and on equal keys the second goes left.
pub fn ordered_pair(first: BoxKey, second: BoxKey, axis: usize) -> (node: BVHNode)
    requires
        axis <= 2,
    ensures
        node == pair_on(first, second, axis),
{
    match box_compare(&first, &second, axis) {
        Ordering::Less => BVHNode { left: BvhChild::Object(first), right: BvhChild::Object(second) },
        _ => BVHNode { left: BvhChild::Object(second), right: BvhChild::Object(first) },
    }
}

/// A copy of `objects[from..to]`.
fn copy_range(objects: &[BoxKey], from: usize, to: usize) -> (part: Vec<BoxKey>)
    requires
        from <= to <= objects.len(),
    ensures
        part@ == objects@.subrange(from as int, to as int),
{
    let mut part: Vec<BoxKey> = Vec::new();
    let mut i: usize = from;
    while i < to
        invariant
            from <= i <= to <= objects.len(),
            part@ == objects@.subrange(from as int, i as int),
        decreases to - i,
    {
        part.push(objects[i]);
        i += 1;
    }
    part
}

/// The two halves of `objects` once they are sorted along `axis`: the sort
/// keeps the order of equal keys, the first half holds the lower half of the
/// objects, rounded down, and the second half the rest.
pub fn sort_and_cut(objects: &[BoxKey], axis: usize) -> (halves: (Vec<BoxKey>, Vec<BoxKey>))
    requires
        axis <= 2,
    ensures
        is_stable_sort_of(halves.0@ + halves.1@, objects@, axis),
        halves.0@.len() == objects@.len() / 2,
{
    let mut my_objects = copy_range(objects, 0, objects.len());
    assert(my_objects@ == objects@);
    sort_by_axis(&mut my_objects, axis);

    let objects_size = my_objects.len();
    let mid = objects_size / 2;
    let lower = copy_range(my_objects.as_slice(), 0, mid);
    let upper = copy_range(my_objects.as_slice(), mid, objects_size);
    assert(lower@ + upper@ =~= my_objects@);
    (lower, upper)
}

impl BVHNode {
    /// Builds the hierarchy over `source_objects`.
    ///
    /// An axis is drawn at random for each node. No objects give a node with
    /// two empty children. One object becomes both children of its node; two
    /// are ordered along the axis; three or more are sorted along the axis
    /// and split at the middle, and each half is built in the same way.
    pub fn new(source_objects: &[BoxKey]) -> (node: BVHNode)
        ensures
            node.built_from(source_objects@),
        decreases source_objects.len(),
    {
        let mut rng = rand::thread_rng();
        let axis = random_index(&mut rng, 0, 3);

        let objects_size = source_objects.len();
        if objects_size == 0 {
            BVHNode { left: BvhChild::Empty, right: BvhChild::Empty }
        } else if objects_size == 1 {
            BVHNode {
                left: BvhChild::Object(source_objects[0]),
                right: BvhChild::Object(source_objects[0]),
            }
        } else if objects_size == 2 {
            ordered_pair(source_objects[0], source_objects[1], axis)
        } else {
            let (lower, upper) = sort_and_cut(source_objects, axis);
            let ghost sorted = lower@ + upper@;
            assert(sorted.subrange(0, sorted.len() as int / 2) =~= lower@);
            assert(sorted.subrange(sorted.len() as int / 2, sorted.len() as int) =~= upper@);

            let left_tmp = BVHNode::new(lower.as_slice());
            let right_tmp = BVHNode::new(upper.as_slice());
            assert(is_stable_sort_of(sorted, source_objects@, axis));
            BVHNode {
                left: BvhChild::Subtree(Box::new(left_tmp)),
                right: BvhChild::Subtree(Box::new(right_tmp)),
            }
        }
    }
}

} // verus!
