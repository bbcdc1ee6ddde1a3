use vstd::prelude::*;

verus! {

/// Where a child of a group fits once the group's bounding box is split in
/// two halves: inside the left half, inside the right half, or in neither.
#[derive(Clone, Copy, Debug, PartialEq, Eq, Structural)]
pub enum Placement {
    Left,
    Right,
    Neither,
}

/// The children among the first `n` whose placement is `place`, in order.
pub open spec fn placed_prefix<T>(objects: Seq<T>, places: Seq<Placement>, place: Placement, n: nat) -> Seq<T>
    decreases n,
{
    if n == 0 {
        Seq::empty()
    } else {
        let m = (n - 1) as nat;
        let rest = placed_prefix(objects, places, place, m);
        if places[m as int] == place {
            rest.push(objects[m as int])
        } else {
            rest
        }
    }
}

/// The children whose placement is `place`, in order.
pub open spec fn placed<T>(objects: Seq<T>, places: Seq<Placement>, place: Placement) -> Seq<T> {
    placed_prefix(objects, places, place, objects.len())
}

/// Splits the children of a group by where they fit: `places[i]` is the
/// placement of `objects[i]`. Returns the children that stay in the group
/// (those that fit in neither half), then those of the left half, then those
/// of the right half, each in the order they came in.
pub fn partition<T>(objects: Vec<T>, places: &Vec<Placement>) -> (r: (Vec<T>, Vec<T>, Vec<T>))
    requires
        objects@.len() == places@.len(),
    ensures
        r.0@ == placed(objects@, places@, Placement::Neither),
        r.1@ == placed(objects@, places@, Placement::Left),
        r.2@ == placed(objects@, places@, Placement::Right),
{
    let ghost items = objects@;
    let mut left: Vec<T> = Vec::new();
    let mut right: Vec<T> = Vec::new();
    let mut neither: Vec<T> = Vec::new();
    let count: usize = places.len();
    let mut i: usize = 0;
    for object in it: objects.into_iter()
        invariant
            it.seq() == items,
            i == it.index(),
            i <= items.len(),
            items.len() == places@.len(),
            count == places@.len(),
            neither@ == placed_prefix(items, places@, Placement::Neither, i as nat),
            left@ == placed_prefix(items, places@, Placement::Left, i as nat),
            right@ == placed_prefix(items, places@, Placement::Right, i as nat),
    {
        match places[i] {
            Placement::Left => left.push(object),
            Placement::Right => right.push(object),
            Placement::Neither => neither.push(object),
        }
        i = i + 1;
    }
    (neither, left, right)
}

/// The children that a group with fewer than `threshold` children keeps; a
/// group with at least that many keeps only those that fit in neither half.
pub open spec fn stays<T>(objects: Seq<T>, places: Seq<Placement>, threshold: u32) -> Seq<T> {
    if objects.len() < threshold {
        objects
    } else {
        placed(objects, places, Placement::Neither)
    }
}

/// The new subgroup for one half: none when the group is too small to be
/// divided or when no child fits in that half.
pub open spec fn subgroup<T>(objects: Seq<T>, places: Seq<Placement>, threshold: u32, half: Placement) -> Option<Seq<T>> {
    if objects.len() < threshold || placed(objects, places, half).len() == 0 {
        None
    } else {
        Some(placed(objects, places, half))
    }
}

/// One level of dividing a group: a group with at least `threshold` children
/// is partitioned, and each half that received children becomes a new
/// subgroup. Returns the children that stay, then the left and the right
/// subgroup where there is one.
pub fn split_children<T>(objects: Vec<T>, places: &Vec<Placement>, threshold: u32) -> (r: (
    Vec<T>,
    Option<Vec<T>>,
    Option<Vec<T>>,
))
    requires
        objects@.len() == places@.len(),
    ensures
        r.0@ == stays(objects@, places@, threshold),
        r.1 is Some <==> subgroup(objects@, places@, threshold, Placement::Left) is Some,
        r.1 is Some ==> r.1->0@ == subgroup(objects@, places@, threshold, Placement::Left)->0,
        r.2 is Some <==> subgroup(objects@, places@, threshold, Placement::Right) is Some,
        r.2 is Some ==> r.2->0@ == subgroup(objects@, places@, threshold, Placement::Right)->0,
{
    if objects.len() < threshold as usize {
        return (objects, None, None);
    }
    let (neither, left, right) = partition(objects, places);
    let left_group = if left.len() > 0 {
        Some(left)
    } else {
        None
    };
    let right_group = if right.len() > 0 {
        Some(right)
    } else {
        None
    };
    (neither, left_group, right_group)
}

proof fn lemma_placed_prefix_keeps<T>(objects: Seq<T>, places: Seq<Placement>, n: nat)
    requires
        n <= objects.len(),
        objects.len() == places.len(),
    ensures
        placed_prefix(objects, places, Placement::Neither, n).to_multiset().add(
            placed_prefix(objects, places, Placement::Left, n).to_multiset(),
        ).add(placed_prefix(objects, places, Placement::Right, n).to_multiset())
            == objects.take(n as int).to_multiset(),
    decreases n,
{
    broadcast use vstd::seq_lib::group_to_multiset_ensures;

    if n == 0 {
        assert(objects.take(0) =~= Seq::<T>::empty());
    } else {
        let m = (n - 1) as nat;
        lemma_placed_prefix_keeps(objects, places, m);
        assert(objects.take(n as int) =~= objects.take(m as int).push(objects[m as int]));
    }
}

/// Partitioning loses and repeats no child: the children that stay, those of
/// the left half and those of the right half are, together, exactly the
/// children of the group.
pub proof fn lemma_partition_keeps_children<T>(objects: Seq<T>, places: Seq<Placement>)
    requires
        objects.len() == places.len(),
    ensures
        placed(objects, places, Placement::Neither).to_multiset().add(
            placed(objects, places, Placement::Left).to_multiset(),
        ).add(placed(objects, places, Placement::Right).to_multiset()) == objects.to_multiset(),
        placed(objects, places, Placement::Neither).len() + placed(
            objects,
            places,
            Placement::Left,
        ).len() + placed(objects, places, Placement::Right).len() == objects.len(),
{
    broadcast use vstd::seq_lib::group_to_multiset_ensures;

    broadcast use vstd::multiset::axiom_len_add;

    lemma_placed_prefix_keeps(objects, places, objects.len());
    assert(objects.take(objects.len() as int) =~= objects);
    let n = placed(objects, places, Placement::Neither);
    let l = placed(objects, places, Placement::Left);
    let r = placed(objects, places, Placement::Right);
    assert(n.to_multiset().add(l.to_multiset()).add(r.to_multiset()).len() == n.len() + l.len()
        + r.len());
}

} // verus!
