use vstd::prelude::*;

verus! {

/// Where the refractive index on one side of a surface comes from.
#[derive(Clone, Copy, Debug, PartialEq, Eq, Structural)]
pub enum Medium {
    /// No object encloses that side: the index of a vacuum, 1.
    Vacuum,
    /// The innermost enclosing object, by its identifier.
    Object(usize),
}

/// The media on both sides of a hit: `n1` is the side the ray comes from,
/// `n2` the side it enters.
#[derive(Clone, Copy, Debug, PartialEq, Eq, Structural)]
pub struct Sides {
    pub n1: Medium,
    pub n2: Medium,
}

/// The objects that enclose the ray after the first `n` intersections, in
/// the order they were entered: an intersection with an object that encloses
/// the ray leaves it, any other enters it.
pub open spec fn containers_after(objects: Seq<usize>, n: nat) -> Seq<usize>
    decreases n,
{
    if n == 0 {
        Seq::empty()
    } else {
        let c = containers_after(objects, (n - 1) as nat);
        let o = objects[n - 1];
        if c.contains(o) {
            c.remove_value(o)
        } else {
            c.push(o)
        }
    }
}

/// The innermost object of `containers`, or a vacuum.
pub open spec fn innermost(containers: Seq<usize>) -> Medium {
    if containers.len() == 0 {
        Medium::Vacuum
    } else {
        Medium::Object(containers.last())
    }
}

/// Whether no intersection before index `n` is the hit.
pub open spec fn no_hit_before(hits: Seq<bool>, n: int) -> bool {
    forall|i: int| 0 <= i < n ==> !#[trigger] hits[i]
}

/// The media around the first hit, or `None` when no intersection is the hit.
pub open spec fn sides_spec(objects: Seq<usize>, hits: Seq<bool>) -> Option<Sides> {
    if exists|h: int| 0 <= h < hits.len() && #[trigger] hits[h] {
        let h = choose|h: int| 0 <= h < hits.len() && hits[h] && no_hit_before(hits, h);
        Some(
            Sides {
                n1: innermost(containers_after(objects, h as nat)),
                n2: innermost(containers_after(objects, (h + 1) as nat)),
            },
        )
    } else {
        None
    }
}

/// Finds the media on both sides of the hit, walking the intersections in
/// order. `objects[i]` identifies the object of intersection `i` and
/// `hits[i]` says whether intersection `i` is the hit.
pub fn refraction_sides(objects: &Vec<usize>, hits: &Vec<bool>) -> (r: Option<Sides>)
    requires
        objects@.len() == hits@.len(),
    ensures
        r == sides_spec(objects@, hits@),
{
    let mut container: Vec<usize> = Vec::new();
    let mut i: usize = 0;
    while i < objects.len()
        invariant
            objects@.len() == hits@.len(),
            i <= objects@.len(),
            container@ == containers_after(objects@, i as nat),
            no_hit_before(hits@, i as int),
        decreases objects@.len() - i,
    {
        let is_hit = hits[i];
        let n1 = if container.len() == 0 {
            Medium::Vacuum
        } else {
            Medium::Object(container[container.len() - 1])
        };
        let o = objects[i];
        let mut position: usize = 0;
        while position < container.len() && container[position] != o
            invariant
                position <= container@.len(),
                forall|j: int| 0 <= j < position ==> container@[j] != o,
            decreases container@.len() - position,
        {
            position = position + 1;
        }
        let ghost before = container@;
        proof {
            before.index_of_first_ensures(o);
        }
        if position < container.len() {
            proof {
                assert(before.contains(o));
                let k = before.index_of_first(o).unwrap();
                assert(k == position) by {
                    if k < position {
                        assert(before[k] != o);
                    } else if k > position {
                        assert(before[position as int] == o);
                    }
                }
            }
            container.remove(position);
        } else {
            proof {
                assert(!before.contains(o));
            }
            container.push(o);
        }
        proof {
            assert(objects@[i as int] == o);
        }
        if is_hit {
            let n2 = if container.len() == 0 {
                Medium::Vacuum
            } else {
                Medium::Object(container[container.len() - 1])
            };
            proof {
                assert(hits@[i as int]);
                let h = choose|h: int| 0 <= h < hits@.len() && hits@[h] && no_hit_before(hits@, h);
                assert(h == i as int) by {
                    if h < i {
                        assert(!hits@[h]);
                    } else if h > i {
                        assert(!hits@[i as int]);
                    }
                }
            }
            return Some(Sides { n1, n2 });
        }
        i = i + 1;
    }
    None
}

/// The enclosing objects never hold an object twice.
pub proof fn lemma_containers_distinct(objects: Seq<usize>, n: nat)
    requires
        n <= objects.len(),
    ensures
        containers_after(objects, n).no_duplicates(),
    decreases n,
{
    if n > 0 {
        let m = (n - 1) as nat;
        lemma_containers_distinct(objects, m);
        let c = containers_after(objects, m);
        let o = objects[m as int];
        if c.contains(o) {
            c.index_of_first_ensures(o);
            let k = c.index_of_first(o).unwrap();
            let r = c.remove_value(o);
            assert(r == c.remove(k));
            assert forall|a: int, b: int| 0 <= a < r.len() && 0 <= b < r.len() && a != b implies r[a] != r[b] by {
                let a2 = if a < k { a } else { a + 1 };
                let b2 = if b < k { b } else { b + 1 };
                assert(r[a] == c[a2]);
                assert(r[b] == c[b2]);
            }
        } else {
            let r = c.push(o);
            assert forall|a: int, b: int| 0 <= a < r.len() && 0 <= b < r.len() && a != b implies r[a] != r[b] by {
                if a == c.len() as int {
                    assert(r[b] == c[b]);
                } else if b == c.len() as int {
                    assert(r[a] == c[a]);
                }
            }
        }
    }
}


/// How many of the first `n` intersections are with object `o`.
pub open spec fn occurrences(objects: Seq<usize>, o: usize, n: nat) -> nat
    decreases n,
{
    if n == 0 {
        0
    } else {
        occurrences(objects, o, (n - 1) as nat) + if objects[n - 1] == o {
            1nat
        } else {
            0nat
        }
    }
}

/// The ray is inside an object exactly when it has crossed that object's
/// surface an odd number of times.
pub proof fn lemma_inside_iff_odd(objects: Seq<usize>, o: usize, n: nat)
    requires
        n <= objects.len(),
    ensures
        containers_after(objects, n).contains(o) <==> occurrences(objects, o, n) % 2 == 1,
    decreases n,
{
    if n > 0 {
        let m = (n - 1) as nat;
        lemma_inside_iff_odd(objects, o, m);
        lemma_containers_distinct(objects, m);
        let c = containers_after(objects, m);
        let p = objects[m as int];
        if c.contains(p) {
            c.index_of_first_ensures(p);
            let k = c.index_of_first(p).unwrap();
            let r = c.remove_value(p);
            assert(r == c.remove(k));
            if p == o {
                assert(!r.contains(o)) by {
                    if r.contains(o) {
                        let j = choose|j: int| 0 <= j < r.len() && r[j] == o;
                        let j2 = if j < k { j } else { j + 1 };
                        assert(c[j2] == o);
                        assert(c[k] == o);
                    }
                }
            } else {
                if c.contains(o) {
                    let j = choose|j: int| 0 <= j < c.len() && c[j] == o;
                    let j2 = if j < k { j } else { j - 1 };
                    assert(r[j2] == o);
                }
                if r.contains(o) {
                    let j = choose|j: int| 0 <= j < r.len() && r[j] == o;
                    let j2 = if j < k { j } else { j + 1 };
                    assert(c[j2] == o);
                }
            }
        } else {
            let r = c.push(p);
            if c.contains(o) {
                let j = choose|j: int| 0 <= j < c.len() && c[j] == o;
                assert(r[j] == o);
            }
            if p == o {
                assert(r[c.len() as int] == o);
            } else if r.contains(o) {
                let j = choose|j: int| 0 <= j < r.len() && r[j] == o;
                assert(j < c.len());
                assert(c[j] == o);
            }
        }
    }
}

} // verus!
