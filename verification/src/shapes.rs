use vstd::prelude::*;

verus! {

/// A Plane is an infinitely large plane situated along the x and z axes.
/// It has no parameters, so any two planes are equal.
#[derive(Clone, Copy, Debug, PartialEq, Eq, Structural)]
pub struct Plane;

/// A Cube is an axis aligned cube spanning -1 to 1 on each axis. It has no
/// parameters, so any two cubes are equal.
#[derive(Clone, Copy, Debug, PartialEq, Eq, Structural)]
pub struct Cube;

/// A Sphere is a unit sphere centred at the origin (0, 0, 0). It has no
/// parameters, so any two spheres are equal.
#[derive(Clone, Copy, Debug, PartialEq, Eq, Structural)]
pub struct Sphere;

impl Plane {
    pub fn new() -> (r: Plane)
        ensures
            r == Plane,
    {
        Plane
    }

    /// Approximate equality: planes are always equal.
    pub fn approx_eq(&self, other: &Plane) -> (r: bool)
        ensures
            r,
    {
        true
    }

    /// Absolute-difference equality: planes are always equal.
    pub fn abs_diff_eq(&self, other: &Plane) -> (r: bool)
        ensures
            r,
    {
        true
    }

    /// Relative equality: planes are always equal.
    pub fn relative_eq(&self, other: &Plane) -> (r: bool)
        ensures
            r,
    {
        true
    }

    /// Equality within some units in the last place: planes are always equal.
    pub fn ulps_eq(&self, other: &Plane) -> (r: bool)
        ensures
            r,
    {
        true
    }
}

impl Cube {
    pub fn new() -> (r: Cube)
        ensures
            r == Cube,
    {
        Cube
    }

    /// Approximate equality: cubes are always equal.
    pub fn approx_eq(&self, other: &Cube) -> (r: bool)
        ensures
            r,
    {
        true
    }
}

impl Sphere {
    pub fn new() -> (r: Sphere)
        ensures
            r == Sphere,
    {
        Sphere
    }

    /// Absolute-difference equality: spheres are always equal.
    pub fn abs_diff_eq(&self, other: &Sphere) -> (r: bool)
        ensures
            r,
    {
        true
    }

    /// Relative equality: spheres are always equal.
    pub fn relative_eq(&self, other: &Sphere) -> (r: bool)
        ensures
            r,
    {
        true
    }

    /// Equality within some units in the last place: spheres are always equal.
    pub fn ulps_eq(&self, other: &Sphere) -> (r: bool)
        ensures
            r,
    {
        true
    }
}

impl Default for Sphere {
    fn default() -> (r: Sphere)
        ensures
            r == Sphere,
    {
        Sphere
    }
}

} // verus!
