use raytracer::refraction::{refraction_sides, Medium, Sides};

#[test]
fn finding_n1_and_n2_at_various_intersections() {
    // Three nested glass spheres A (0), B (1) and C (2): the ray meets
    // A, B, C, B, C, A in that order.
    let objects = vec![0, 1, 2, 1, 2, 0];
    let expected = [
        (Medium::Vacuum, Medium::Object(0)),
        (Medium::Object(0), Medium::Object(1)),
        (Medium::Object(1), Medium::Object(2)),
        (Medium::Object(2), Medium::Object(2)),
        (Medium::Object(2), Medium::Object(0)),
        (Medium::Object(0), Medium::Vacuum),
    ];
    for (index, (n1, n2)) in expected.iter().enumerate() {
        let hits: Vec<bool> = (0..objects.len()).map(|i| i == index).collect();
        assert_eq!(refraction_sides(&objects, &hits), Some(Sides { n1: *n1, n2: *n2 }));
    }
}

#[test]
fn no_hit_in_the_list() {
    assert_eq!(refraction_sides(&vec![0, 1], &vec![false, false]), None);
    assert_eq!(refraction_sides(&Vec::new(), &Vec::new()), None);
}

#[test]
fn the_first_hit_counts() {
    let sides = refraction_sides(&vec![3, 3, 4], &vec![false, true, true]);
    assert_eq!(sides, Some(Sides { n1: Medium::Object(3), n2: Medium::Vacuum }));
}
