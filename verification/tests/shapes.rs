use raytracer::shapes::{Cube, Plane, Sphere};

#[test]
fn plane_approx() {
    let p1 = Plane;
    let p2 = Plane;

    assert!(p1.abs_diff_eq(&p2));

    assert!(p1.relative_eq(&p2));

    assert!(p1.ulps_eq(&p2));
}

#[test]
fn spheres_are_approximately_equal() {
    let s1 = Sphere::new();
    let s2 = Sphere::new();

    assert!(s1.abs_diff_eq(&s2));

    assert!(s1.relative_eq(&s2));

    assert!(s1.ulps_eq(&s2));
}

#[test]
fn cubes_and_planes_compare_equal() {
    assert!(Cube::new().approx_eq(&Cube));
    assert!(Plane::new().approx_eq(&Plane));
    assert_eq!(Cube::new(), Cube);
    assert_eq!(Plane::new(), Plane);
    assert_eq!(Sphere::new(), Sphere);
}

#[test]
fn the_default_sphere_is_the_unit_sphere() {
    assert_eq!(Sphere::default(), Sphere::new());
}
