use core::ops::{Add, Mul, Sub};
use vstd::prelude::*;
use vstd::std_specs::ops::{AddSpec, MulSpec, SubSpec};

verus! {

/// The value `a + t * (b - a)` as the operator specifications of `T` define it.
pub open spec fn lerp_spec<T>(a: T, b: T, t: T) -> T where
    T: Add<Output = T> + Sub<Output = T> + Mul<Output = T>,
 {
    a.add_spec(t.mul_spec(b.sub_spec(a)))
}

/// The operator preconditions of [`lerp_spec`].
pub open spec fn lerp_req<T>(a: T, b: T, t: T) -> bool where
    T: Add<Output = T> + Sub<Output = T> + Mul<Output = T>,
 {
    &&& b.sub_req(a)
    &&& t.mul_req(b.sub_spec(a))
    &&& a.add_req(t.mul_spec(b.sub_spec(a)))
}

/// Linearly interpolate t distance between a and b.
///
/// Proved for every number type whose operators follow their Verus
/// specifications (the primitive integers); other types, such as `f64`, are
/// only exercised by the tests.
pub fn lerp<T>(a: T, b: T, t: T) -> (r: T) where
    T: Copy + Add<Output = T> + Sub<Output = T> + Mul<Output = T>,
    requires
        T::obeys_add_spec(),
        T::obeys_sub_spec(),
        T::obeys_mul_spec(),
        lerp_req(a, b, t),
    ensures
        r == lerp_spec(a, b, t),
{
    a + t * (b - a)
}


/// Interpolating at `t = 0` gives `a` and at `t = 1` gives `b` (shown for
/// `i64`, wherever `b - a` fits).
pub proof fn lemma_lerp_endpoints(a: i64, b: i64)
    requires
        i64::MIN <= b - a <= i64::MAX,
    ensures
        lerp_spec(a, b, 0i64) == a,
        lerp_spec(a, b, 1i64) == b,
{
}

} // verus!
