use vstd::prelude::*;

verus! {

/// `Operation` defines the various operations that can be performed between the
/// left and right children of a CSG.
#[derive(Clone, Copy, Debug, PartialEq, Eq, Structural)]
pub enum Operation {
    Difference,
    Intersection,
    Union,
}

/// Whether an intersection survives `op`, given whether it hit the left child
/// and whether the ray is currently inside the left and the right child.
pub open spec fn allows(op: Operation, left_hit: bool, in_left: bool, in_right: bool) -> bool {
    match op {
        Operation::Difference => (left_hit && !in_right) || (!left_hit && in_left),
        Operation::Intersection => (left_hit && in_right) || (!left_hit && in_left),
        Operation::Union => (left_hit && !in_right) || (!left_hit && !in_left),
    }
}

/// Whether the ray is inside the left and the right child after the first `n`
/// intersections: each hit on a child toggles the state of that child.
pub open spec fn inside_after(hits: Seq<bool>, n: nat) -> (bool, bool)
    decreases n,
{
    if n == 0 {
        (false, false)
    } else {
        let (l, r) = inside_after(hits, (n - 1) as nat);
        if hits[n - 1] {
            (!l, r)
        } else {
            (l, !r)
        }
    }
}

/// Whether the intersection at index `i` survives `op`.
pub open spec fn kept(op: Operation, hits: Seq<bool>, i: nat) -> bool {
    let (l, r) = inside_after(hits, i);
    allows(op, hits[i as int], l, r)
}

/// The first `n` items, without those that do not survive `op`.
pub open spec fn filter_prefix<I>(op: Operation, items: Seq<I>, hits: Seq<bool>, n: nat) -> Seq<I>
    decreases n,
{
    if n == 0 {
        Seq::empty()
    } else {
        let m = (n - 1) as nat;
        let rest = filter_prefix(op, items, hits, m);
        if kept(op, hits, m) {
            rest.push(items[m as int])
        } else {
            rest
        }
    }
}

/// The items, in order, that survive `op`; `hits[i]` says whether item `i`
/// is an intersection with the left child.
pub open spec fn csg_filter<I>(op: Operation, items: Seq<I>, hits: Seq<bool>) -> Seq<I> {
    filter_prefix(op, items, hits, items.len())
}

impl Operation {
    /// The rule of this operation for one intersection.
    pub fn intersection_allowed(&self, left_hit: bool, in_left: bool, in_right: bool) -> (r: bool)
        ensures
            r == allows(*self, left_hit, in_left, in_right),
    {
        match self {
            Operation::Difference => (left_hit && !in_right) || (!left_hit && in_left),
            Operation::Intersection => (left_hit && in_right) || (!left_hit && in_left),
            Operation::Union => (left_hit && !in_right) || (!left_hit && !in_left),
        }
    }
}

/// Keeps, in order, the intersections that survive `operation`.
/// `left_hits[i]` says whether `intersections[i]` is with the left child.
pub fn filter_intersections<I: Copy>(
    operation: Operation,
    intersections: &Vec<I>,
    left_hits: &Vec<bool>,
) -> (r: Vec<I>)
    requires
        intersections@.len() == left_hits@.len(),
    ensures
        r@ == csg_filter(operation, intersections@, left_hits@),
{
    let mut in_left = false;
    let mut in_right = false;
    let mut list: Vec<I> = Vec::new();
    let mut i: usize = 0;
    while i < intersections.len()
        invariant
            intersections@.len() == left_hits@.len(),
            i <= intersections@.len(),
            (in_left, in_right) == inside_after(left_hits@, i as nat),
            list@ == filter_prefix(operation, intersections@, left_hits@, i as nat),
        decreases intersections@.len() - i,
    {
        let left_hit = left_hits[i];
        if operation.intersection_allowed(left_hit, in_left, in_right) {
            list.push(intersections[i]);
        }
        if left_hit {
            in_left = !in_left;
        } else {
            in_right = !in_right;
        }
        i = i + 1;
    }
    list
}

/// The hits seen from the other child: every left hit becomes a right hit and
/// the other way round.
pub open spec fn swap_sides(hits: Seq<bool>) -> Seq<bool> {
    Seq::new(hits.len(), |i: int| !hits[i])
}

proof fn lemma_inside_after_swapped(hits: Seq<bool>, n: nat)
    requires
        n <= hits.len(),
    ensures
        inside_after(swap_sides(hits), n) == (inside_after(hits, n).1, inside_after(hits, n).0),
    decreases n,
{
    if n > 0 {
        lemma_inside_after_swapped(hits, (n - 1) as nat);
    }
}

/// Union and intersection do not depend on which child is left: swapping the
/// children keeps exactly the same intersections.
pub proof fn lemma_filter_symmetric<I>(op: Operation, items: Seq<I>, hits: Seq<bool>)
    requires
        op != Operation::Difference,
        items.len() == hits.len(),
    ensures
        csg_filter(op, items, swap_sides(hits)) == csg_filter(op, items, hits),
{
    lemma_filter_prefix_symmetric(op, items, hits, items.len());
}

proof fn lemma_filter_prefix_symmetric<I>(op: Operation, items: Seq<I>, hits: Seq<bool>, n: nat)
    requires
        op != Operation::Difference,
        n <= hits.len(),
    ensures
        filter_prefix(op, items, swap_sides(hits), n) == filter_prefix(op, items, hits, n),
    decreases n,
{
    if n > 0 {
        let m = (n - 1) as nat;
        lemma_filter_prefix_symmetric(op, items, hits, m);
        lemma_inside_after_swapped(hits, m);
    }
}

/// Along a ray, every intersection with the left child survives exactly one
/// of difference and intersection, and every intersection with the right
/// child survives both or neither.
pub proof fn lemma_difference_intersection_split(hits: Seq<bool>, i: nat)
    requires
        i < hits.len(),
    ensures
        hits[i as int] ==> (kept(Operation::Difference, hits, i) != kept(
            Operation::Intersection,
            hits,
            i,
        )),
        !hits[i as int] ==> (kept(Operation::Difference, hits, i) == kept(
            Operation::Intersection,
            hits,
            i,
        )),
{
}

/// Filtering never adds intersections.
pub proof fn lemma_filter_shrinks<I>(op: Operation, items: Seq<I>, hits: Seq<bool>, n: nat)
    ensures
        filter_prefix(op, items, hits, n).len() <= n,
    decreases n,
{
    if n > 0 {
        lemma_filter_shrinks(op, items, hits, (n - 1) as nat);
    }
}

} // verus!
