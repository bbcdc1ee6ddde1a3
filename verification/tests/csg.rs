use raytracer::csg::{filter_intersections, Operation};

#[test]
fn evaluating_the_rules_for_a_csg_operation() {
    let test = |op: Operation, l_hit, in_l, in_r| op.intersection_allowed(l_hit, in_l, in_r);

    let u = Operation::Union;
    assert!(!test(u, true, true, true));
    assert!(test(u, true, true, false));
    assert!(!test(u, true, false, true));
    assert!(test(u, true, false, false));
    assert!(!test(u, false, true, true));
    assert!(!test(u, false, true, false));
    assert!(test(u, false, false, true));
    assert!(test(u, false, false, false));

    let i = Operation::Intersection;
    assert!(test(i, true, true, true));
    assert!(!test(i, true, true, false));
    assert!(test(i, true, false, true));
    assert!(!test(i, true, false, false));
    assert!(test(i, false, true, true));
    assert!(test(i, false, true, false));
    assert!(!test(i, false, false, true));
    assert!(!test(i, false, false, false));

    let d = Operation::Difference;
    assert!(!test(d, true, true, true));
    assert!(test(d, true, true, false));
    assert!(!test(d, true, false, true));
    assert!(test(d, true, false, false));
    assert!(test(d, false, true, true));
    assert!(test(d, true, true, false));
    assert!(!test(d, false, false, true));
    assert!(!test(d, false, false, false));
}

#[test]
fn filtering_a_list_of_intersections() {
    // Intersections at t = 1, 2, 3, 4 alternating between the left (a sphere)
    // and the right (a cube) child.
    let l = vec![(1u32, 1.0f64), (2, 2.0), (1, 3.0), (2, 4.0)];
    let left_hits: Vec<bool> = l.iter().map(|(object, _)| *object == 1).collect();

    let test = |o, i1: usize, i2: usize| {
        let f = filter_intersections(o, &l, &left_hits);

        assert_eq!(f.len(), 2);
        assert_eq!(f[0], l[i1]);
        assert_eq!(f[1], l[i2]);
    };

    test(Operation::Union, 0, 3);
    test(Operation::Intersection, 1, 2);
    test(Operation::Difference, 0, 1);
}

#[test]
fn swapping_children_keeps_union_and_intersection() {
    let items: Vec<usize> = (0..8).collect();
    let hits = vec![true, false, false, true, true, false, true, false];
    let swapped: Vec<bool> = hits.iter().map(|h| !h).collect();
    for op in [Operation::Union, Operation::Intersection] {
        assert_eq!(
            filter_intersections(op, &items, &hits),
            filter_intersections(op, &items, &swapped)
        );
    }
    assert_ne!(
        filter_intersections(Operation::Difference, &items, &hits),
        filter_intersections(Operation::Difference, &items, &swapped)
    );
}

#[test]
fn filtering_an_empty_list() {
    let items: Vec<u8> = Vec::new();
    assert!(filter_intersections(Operation::Union, &items, &Vec::new()).is_empty());
}
