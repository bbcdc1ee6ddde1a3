use core::ops::{Add, Mul, Neg, Sub};
use rand::seq::SliceRandom;
use rand_xoshiro::Xoshiro256PlusPlus;
use vstd::prelude::*;
use vstd::std_specs::cmp::PartialOrdIs;
use vstd::std_specs::convert::FromSpec;
use vstd::std_specs::ops::{AddSpec, MulSpec, NegSpec, SubSpec};
use crate::util::{lerp, lerp_req, lerp_spec};

verus! {

/// Number of distinct entries in a permutation table.
pub const PERMUTATION_TABLE_SIZE: usize = 256;

/// Mask that wraps a lattice coordinate into the permutation table.
pub const PERMUTATION_TABLE_MASK: usize = 255;

/// The random number generator used to shuffle permutation tables.
#[verifier::external_type_specification]
#[verifier::external_body]
pub struct ExXoshiro256PlusPlus(Xoshiro256PlusPlus);

/// The bytes `0, 1, ..., 255` in order.
pub open spec fn byte_identity() -> Seq<u8> {
    Seq::new(256, |i: int| i as u8)
}

/// `s` holds each byte value exactly once.
pub open spec fn is_byte_permutation(s: Seq<u8>) -> bool {
    s.len() == 256 && s.no_duplicates()
}

/// A permutation table: a permutation of the bytes, repeated twice so that
/// nested lookups never need to wrap.
pub open spec fn is_permutation_table(s: Seq<u8>) -> bool {
    &&& s.len() == 512
    &&& is_byte_permutation(s.subrange(0, 256))
    &&& forall|i: int| 0 <= i < 256 ==> #[trigger] s[i] == s[i + 256]
}

/// The table lookup `p[p[p[x] + y] + z]`.
pub open spec fn hash_spec(p: Seq<u8>, x: int, y: int, z: int) -> u8 {
    p[p[p[x] + y] + z]
}

/// Reorders `values` with the Fisher-Yates shuffle of `rand` (`SliceRandom::shuffle`).
/// The contract claims only that the result is a rearrangement of the input:
/// which rearrangement depends on the generator's state.
#[verifier::external_body]
fn shuffle_bytes(values: &mut Vec<u8>, rng: &mut Xoshiro256PlusPlus)
    ensures
        final(values)@.len() == old(values)@.len(),
        final(values)@.to_multiset() == old(values)@.to_multiset(),
{
    values.shuffle(rng);
}

/// An instance of improved Perlin noise: its permutation table.
pub struct PerlinNoise {
    permutations: Vec<u8>,
}

impl View for PerlinNoise {
    type V = Seq<u8>;

    closed spec fn view(&self) -> Seq<u8> {
        self.permutations@
    }
}

impl PerlinNoise {
    #[verifier::type_invariant]
    spec fn table_is_valid(self) -> bool {
        is_permutation_table(self.permutations@)
    }
}


impl PerlinNoise {
    /// Builds the table for a given arrangement of the bytes: the arrangement
    /// followed by itself. Returns `None` unless `values` holds every byte
    /// value exactly once.
    pub fn from_permutation(values: &Vec<u8>) -> (r: Option<PerlinNoise>)
        ensures
            r is Some <==> is_byte_permutation(values@),
            r matches Some(p) ==> p@ == values@ + values@,
    {
        if values.len() != PERMUTATION_TABLE_SIZE {
            return None;
        }
        let mut seen: Vec<bool> = Vec::new();
        let mut k: usize = 0;
        while k < PERMUTATION_TABLE_SIZE
            invariant
                k <= 256,
                seen@.len() == k,
                forall|j: int| 0 <= j < k ==> !seen@[j],
            decreases 256 - k,
        {
            seen.push(false);
            k = k + 1;
        }
        let mut i: usize = 0;
        while i < PERMUTATION_TABLE_SIZE
            invariant
                values@.len() == 256,
                i <= 256,
                seen@.len() == 256,
                forall|b: int|
                    0 <= b < 256 ==> (#[trigger] seen@[b] <==> values@.subrange(0, i as int).contains(
                        b as u8,
                    )),
                values@.subrange(0, i as int).no_duplicates(),
            decreases 256 - i,
        {
            let v = values[i];
            let ghost prefix = values@.subrange(0, i as int);
            if seen[v as usize] {
                proof {
                    let j = choose|j: int| 0 <= j < prefix.len() && prefix[j] == v;
                    assert(values@[j] == values@[i as int]);
                }
                return None;
            }
            seen.set(v as usize, true);
            proof {
                let next = values@.subrange(0, i + 1);
                assert(next == prefix.push(v));
                assert forall|b: int| 0 <= b < 256 implies (#[trigger] seen@[b]
                    <==> next.contains(b as u8)) by {
                    if b == v as int {
                        assert(next[i as int] == v);
                    } else {
                        if next.contains(b as u8) {
                            let j = choose|j: int| 0 <= j < next.len() && next[j] == b as u8;
                            assert(j < i);
                            assert(prefix[j] == b as u8);
                        }
                        if prefix.contains(b as u8) {
                            let j = choose|j: int| 0 <= j < prefix.len() && prefix[j] == b as u8;
                            assert(next[j] == b as u8);
                        }
                    }
                }
                assert forall|a: int, c: int|
                    0 <= a < next.len() && 0 <= c < next.len() && a != c implies next[a]
                    != next[c] by {
                    if a == i as int {
                        assert(!prefix.contains(v));
                        assert(prefix[c] == next[c]);
                    } else if c == i as int {
                        assert(!prefix.contains(v));
                        assert(prefix[a] == next[a]);
                    }
                }
            }
            i = i + 1;
        }
        assert(values@.subrange(0, 256) == values@);
        let mut permutations: Vec<u8> = Vec::new();
        let mut round: usize = 0;
        while round < 2
            invariant
                values@.len() == 256,
                round <= 2,
                round == 0 ==> permutations@ == Seq::<u8>::empty(),
                round == 1 ==> permutations@ == values@,
                round == 2 ==> permutations@ == values@ + values@,
            decreases 2 - round,
        {
            let ghost start = permutations@;
            let mut j: usize = 0;
            while j < PERMUTATION_TABLE_SIZE
                invariant
                    values@.len() == 256,
                    j <= 256,
                    permutations@ == start + values@.subrange(0, j as int),
                decreases 256 - j,
            {
                permutations.push(values[j]);
                proof {
                    assert(values@.subrange(0, j + 1) == values@.subrange(0, j as int).push(
                        values@[j as int],
                    ));
                }
                j = j + 1;
            }
            assert(values@.subrange(0, 256) == values@);
            round = round + 1;
        }
        let table = PerlinNoise { permutations };
        proof {
            let s = values@ + values@;
            assert(s.subrange(0, 256) == values@);
        }
        Some(table)
    }

    /// Creates Perlin noise with a permutation table shuffled by `rng`.
    pub fn new(rng: &mut Xoshiro256PlusPlus) -> (r: PerlinNoise)
        ensures
            is_permutation_table(r@),
            r@.subrange(0, 256).to_multiset() == byte_identity().to_multiset(),
    {
        let mut values: Vec<u8> = Vec::new();
        let mut i: usize = 0;
        while i < PERMUTATION_TABLE_SIZE
            invariant
                i <= 256,
                values@ == byte_identity().subrange(0, i as int),
            decreases 256 - i,
        {
            values.push(i as u8);
            proof {
                assert(byte_identity().subrange(0, i + 1) == byte_identity().subrange(
                    0,
                    i as int,
                ).push(i as u8));
            }
            i = i + 1;
        }
        assert(values@ == byte_identity());
        shuffle_bytes(&mut values, rng);
        proof {
            lemma_byte_identity_is_permutation();
            byte_identity().lemma_multiset_has_no_duplicates();
            values@.lemma_multiset_has_no_duplicates_conv();
        }
        let r = Self::from_permutation(&values);
        let table = r.unwrap();
        proof {
            use_type_invariant(&table);
            assert(table@.subrange(0, 256) == values@);
        }
        table
    }

    /// Looks up the permutation table three times: `p[p[p[x] + y] + z]`.
    /// Every lookup with coordinates below 256 stays inside the table, as
    /// does any other whose three steps land inside it.
    pub fn hash(&self, x: usize, y: usize, z: usize) -> (r: u8)
        requires
            (x < 256 && y < 256 && z < 256) || (x < self@.len() && self@[x as int] + y
                < self@.len() && self@[self@[x as int] + y] + z < self@.len()),
        ensures
            r == hash_spec(self@, x as int, y as int, z as int),
    {
        proof {
            use_type_invariant(self);
        }
        self.permutations[self.permutations[self.permutations[x] as usize + y] as usize + z]
    }
}

/// The lattice coordinate that follows `c` in a table of 256 entries.
pub open spec fn next_coordinate(c: int) -> int {
    (c + 1) % 256
}

/// Offset `d` (0 or 1) of coordinate `c` along one axis of a lattice cell.
pub open spec fn corner_coordinate(c: int, d: int) -> int {
    if d == 0 {
        c
    } else {
        next_coordinate(c)
    }
}

/// The hash of corner `(dx, dy, dz)` of the lattice cell at `(x0, y0, z0)`.
pub open spec fn corner_hash_spec(p: Seq<u8>, x0: int, y0: int, z0: int, dx: int, dy: int, dz: int) -> u8 {
    hash_spec(
        p,
        corner_coordinate(x0, dx),
        corner_coordinate(y0, dy),
        corner_coordinate(z0, dz),
    )
}

/// Wraps an integer lattice cell into the permutation table: `cell mod 256`.
pub fn lattice_index(cell: isize) -> (r: usize)
    ensures
        r < 256,
        r as int == cell as int % 256,
{
    let r = (cell as usize) & PERMUTATION_TABLE_MASK;
    proof {
        let u = cell as usize;
        assert(u & 255 == u % 256) by (bit_vector);
        if cell >= 0 {
            assert(u == cell);
        } else {
            assert((cell as usize) % 256 == (cell + 256 * 0x100_0000_0000_0000) % 256) by (bit_vector)
                requires cell < 0;
        }
    }
    r
}

/// The lattice repeats every 256 cells along each axis: a cell and the cell
/// 256 further on wrap to the same table index ([`lattice_index`] gives
/// `cell mod 256`), so the corners of their lattice cells get the same hashes.
pub proof fn lemma_lattice_repeats(p: Seq<u8>, x: int, y: int, z: int, dx: int, dy: int, dz: int)
    ensures
        (x + 256) % 256 == x % 256,
        (y + 256) % 256 == y % 256,
        (z + 256) % 256 == z % 256,
        corner_hash_spec(p, (x + 256) % 256, y % 256, z % 256, dx, dy, dz) == corner_hash_spec(
            p,
            x % 256,
            y % 256,
            z % 256,
            dx,
            dy,
            dz,
        ),
        corner_hash_spec(p, x % 256, (y + 256) % 256, z % 256, dx, dy, dz) == corner_hash_spec(
            p,
            x % 256,
            y % 256,
            z % 256,
            dx,
            dy,
            dz,
        ),
        corner_hash_spec(p, x % 256, y % 256, (z + 256) % 256, dx, dy, dz) == corner_hash_spec(
            p,
            x % 256,
            y % 256,
            z % 256,
            dx,
            dy,
            dz,
        ),
{
}

/// The next lattice coordinate, wrapped into the permutation table.
pub fn next_lattice_index(c: usize) -> (r: usize)
    requires
        c < 256,
    ensures
        r as int == next_coordinate(c as int),
{
    let n = c + 1;
    let r = n & PERMUTATION_TABLE_MASK;
    assert(n & 255 == n % 256) by (bit_vector);
    r
}

impl PerlinNoise {
    /// The hashes of the eight corners of the lattice cell whose lowest
    /// corner is `(x0, y0, z0)`. Entry `dx + 2 * dy + 4 * dz` belongs to the
    /// corner offset by `(dx, dy, dz)`.
    pub fn corner_hashes(&self, x0: usize, y0: usize, z0: usize) -> (r: [u8; 8])
        requires
            x0 < 256,
            y0 < 256,
            z0 < 256,
        ensures
            forall|dx: int, dy: int, dz: int|
                0 <= dx < 2 && 0 <= dy < 2 && 0 <= dz < 2 ==> #[trigger] r@[dx + 2 * dy + 4 * dz]
                    == corner_hash_spec(self@, x0 as int, y0 as int, z0 as int, dx, dy, dz),
    {
        proof {
            use_type_invariant(self);
        }
        let x1 = next_lattice_index(x0);
        let y1 = next_lattice_index(y0);
        let z1 = next_lattice_index(z0);
        let r = [
            self.hash(x0, y0, z0),
            self.hash(x1, y0, z0),
            self.hash(x0, y1, z0),
            self.hash(x1, y1, z0),
            self.hash(x0, y0, z1),
            self.hash(x1, y0, z1),
            self.hash(x0, y1, z1),
            self.hash(x1, y1, z1),
        ];
        assert forall|dx: int, dy: int, dz: int|
            0 <= dx < 2 && 0 <= dy < 2 && 0 <= dz < 2 implies #[trigger] r@[dx + 2 * dy + 4 * dz]
                == corner_hash_spec(self@, x0 as int, y0 as int, z0 as int, dx, dy, dz) by {}
        r
    }

    /// The two tables are the same.
    fn same_table(&self, other: &PerlinNoise) -> (r: bool)
        ensures
            r == (self@ == other@),
    {
        proof {
            use_type_invariant(self);
            use_type_invariant(other);
        }
        let mut i: usize = 0;
        while i < self.permutations.len()
            invariant
                self@.len() == 512,
                other@.len() == 512,
                i <= 512,
                forall|j: int| 0 <= j < i ==> self@[j] == other@[j],
            decreases 512 - i,
        {
            if self.permutations[i] != other.permutations[i] {
                return false;
            }
            i = i + 1;
        }
        assert(self@ =~= other@);
        true
    }

    /// Absolute-difference equality: noise instances compare by their tables.
    pub fn abs_diff_eq(&self, other: &PerlinNoise) -> (r: bool)
        ensures
            r == (self@ == other@),
    {
        self.same_table(other)
    }

    /// Relative equality: noise instances compare by their tables.
    pub fn relative_eq(&self, other: &PerlinNoise) -> (r: bool)
        ensures
            r == (self@ == other@),
    {
        self.same_table(other)
    }

    /// Equality within some units in the last place: noise instances compare
    /// by their tables.
    pub fn ulps_eq(&self, other: &PerlinNoise) -> (r: bool)
        ensures
            r == (self@ == other@),
    {
        self.same_table(other)
    }
}

/// The gradient of Perlin's improved noise: the low four bits of `hash`
/// choose two of the coordinates and their signs.
pub open spec fn gradient_spec<T>(hash: u8, x: T, y: T, z: T) -> T where
    T: Add<Output = T> + Sub<Output = T> + Neg<Output = T>,
 {
    let h = hash % 16;
    if h == 0 || h == 12 {
        x.add_spec(y)
    } else if h == 1 || h == 13 {
        x.neg_spec().add_spec(y)
    } else if h == 2 {
        x.sub_spec(y)
    } else if h == 3 {
        x.neg_spec().sub_spec(y)
    } else if h == 4 {
        x.add_spec(z)
    } else if h == 5 {
        x.neg_spec().add_spec(z)
    } else if h == 6 {
        x.sub_spec(z)
    } else if h == 7 {
        x.neg_spec().sub_spec(z)
    } else if h == 8 {
        y.add_spec(z)
    } else if h == 9 || h == 14 {
        y.neg_spec().add_spec(z)
    } else if h == 10 {
        y.sub_spec(z)
    } else {
        y.neg_spec().sub_spec(z)
    }
}

/// The operator preconditions of the gradient that `hash` chooses.
pub open spec fn gradient_req<T>(hash: u8, x: T, y: T, z: T) -> bool where
    T: Add<Output = T> + Sub<Output = T> + Neg<Output = T>,
 {
    let h = hash % 16;
    if h == 0 || h == 12 {
        x.add_req(y)
    } else if h == 1 || h == 13 {
        x.neg_req() && x.neg_spec().add_req(y)
    } else if h == 2 {
        x.sub_req(y)
    } else if h == 3 {
        x.neg_req() && x.neg_spec().sub_req(y)
    } else if h == 4 {
        x.add_req(z)
    } else if h == 5 {
        x.neg_req() && x.neg_spec().add_req(z)
    } else if h == 6 {
        x.sub_req(z)
    } else if h == 7 {
        x.neg_req() && x.neg_spec().sub_req(z)
    } else if h == 8 {
        y.add_req(z)
    } else if h == 9 || h == 14 {
        y.neg_req() && y.neg_spec().add_req(z)
    } else if h == 10 {
        y.sub_req(z)
    } else {
        y.neg_req() && y.neg_spec().sub_req(z)
    }
}

/// The gradient of improved Perlin noise for a corner hash and the offset
/// `(x, y, z)` from that corner.
///
/// Proved for every number type whose operators follow their Verus
/// specifications (the signed integers); other types, such as `f64`, are only
/// exercised by the tests.
pub fn gradient<T>(hash: u8, x: T, y: T, z: T) -> (r: T) where
    T: Copy + Add<Output = T> + Sub<Output = T> + Neg<Output = T>,
    requires
        T::obeys_add_spec(),
        T::obeys_sub_spec(),
        T::obeys_neg_spec(),
        gradient_req(hash, x, y, z),
    ensures
        r == gradient_spec(hash, x, y, z),
{
    let h = hash & 15;
    assert(h == hash % 16) by (bit_vector)
        requires h == hash & 15;
    match h {
        0 | 12 => x + y,
        1 | 13 => x.neg() + y,
        2 => x - y,
        3 => x.neg() - y,
        4 => x + z,
        5 => x.neg() + z,
        6 => x - z,
        7 => x.neg() - z,
        8 => y + z,
        9 | 14 => y.neg() + z,
        10 => y - z,
        11 | 15 => y.neg() - z,
        _ => {
            assert(false);
            x + y
        },
    }
}

/// The gradients at the eight corners of a cell, for the offset `(x, y, z)`
/// from its lowest corner; corner `dx + 2 * dy + 4 * dz` is offset by
/// `(dx, dy, dz)`, so its offset is `x - dx * one` and so on.
pub open spec fn corner_gradients<T>(hashes: Seq<u8>, x: T, y: T, z: T, one: T) -> Seq<T> where
    T: Add<Output = T> + Sub<Output = T> + Neg<Output = T>,
 {
    let x1 = x.sub_spec(one);
    let y1 = y.sub_spec(one);
    let z1 = z.sub_spec(one);
    seq![
        gradient_spec(hashes[0], x, y, z),
        gradient_spec(hashes[1], x1, y, z),
        gradient_spec(hashes[2], x, y1, z),
        gradient_spec(hashes[3], x1, y1, z),
        gradient_spec(hashes[4], x, y, z1),
        gradient_spec(hashes[5], x1, y, z1),
        gradient_spec(hashes[6], x, y1, z1),
        gradient_spec(hashes[7], x1, y1, z1),
    ]
}

/// The operator preconditions of [`corner_gradients`].
pub open spec fn corner_gradients_req<T>(hashes: Seq<u8>, x: T, y: T, z: T, one: T) -> bool where
    T: Add<Output = T> + Sub<Output = T> + Neg<Output = T>,
 {
    let x1 = x.sub_spec(one);
    let y1 = y.sub_spec(one);
    let z1 = z.sub_spec(one);
    &&& x.sub_req(one)
    &&& y.sub_req(one)
    &&& z.sub_req(one)
    &&& gradient_req(hashes[0], x, y, z)
    &&& gradient_req(hashes[1], x1, y, z)
    &&& gradient_req(hashes[2], x, y1, z)
    &&& gradient_req(hashes[3], x1, y1, z)
    &&& gradient_req(hashes[4], x, y, z1)
    &&& gradient_req(hashes[5], x1, y, z1)
    &&& gradient_req(hashes[6], x, y1, z1)
    &&& gradient_req(hashes[7], x1, y1, z1)
}

/// Trilinear interpolation of the eight corner values `g` with the faded
/// weights `fx`, `fy` and `fz`: first along x, then y, then z.
pub open spec fn trilinear_spec<T>(g: Seq<T>, fx: T, fy: T, fz: T) -> T where
    T: Add<Output = T> + Sub<Output = T> + Mul<Output = T>,
 {
    lerp_spec(
        lerp_spec(lerp_spec(g[0], g[1], fx), lerp_spec(g[2], g[3], fx), fy),
        lerp_spec(lerp_spec(g[4], g[5], fx), lerp_spec(g[6], g[7], fx), fy),
        fz,
    )
}

/// The operator preconditions of [`trilinear_spec`].
pub open spec fn trilinear_req<T>(g: Seq<T>, fx: T, fy: T, fz: T) -> bool where
    T: Add<Output = T> + Sub<Output = T> + Mul<Output = T>,
 {
    let a = lerp_spec(g[0], g[1], fx);
    let b = lerp_spec(g[2], g[3], fx);
    let c = lerp_spec(g[4], g[5], fx);
    let d = lerp_spec(g[6], g[7], fx);
    &&& lerp_req(g[0], g[1], fx)
    &&& lerp_req(g[2], g[3], fx)
    &&& lerp_req(g[4], g[5], fx)
    &&& lerp_req(g[6], g[7], fx)
    &&& lerp_req(a, b, fy)
    &&& lerp_req(c, d, fy)
    &&& lerp_req(lerp_spec(a, b, fy), lerp_spec(c, d, fy), fz)
}

/// The raw noise inside one lattice cell: the gradients of its corners
/// (from their `hashes`) at the offset `(x, y, z)`, blended with the faded
/// weights `fx`, `fy` and `fz`. `one` is the edge length of the cell.
///
/// Proved for every number type whose operators follow their Verus
/// specifications (the signed integers); other types, such as `f64`, are
/// only exercised by the tests.
pub fn noise_in_cell<T>(hashes: [u8; 8], x: T, y: T, z: T, fx: T, fy: T, fz: T, one: T) -> (r: T) where
    T: Copy + Add<Output = T> + Sub<Output = T> + Mul<Output = T> + Neg<Output = T>,
    requires
        T::obeys_add_spec(),
        T::obeys_sub_spec(),
        T::obeys_mul_spec(),
        T::obeys_neg_spec(),
        corner_gradients_req(hashes@, x, y, z, one),
        trilinear_req(corner_gradients(hashes@, x, y, z, one), fx, fy, fz),
    ensures
        r == trilinear_spec(corner_gradients(hashes@, x, y, z, one), fx, fy, fz),
{
    let x1 = x - one;
    let y1 = y - one;
    let z1 = z - one;
    let g0 = gradient(hashes[0], x, y, z);
    let g1 = gradient(hashes[1], x1, y, z);
    let g2 = gradient(hashes[2], x, y1, z);
    let g3 = gradient(hashes[3], x1, y1, z);
    let g4 = gradient(hashes[4], x, y, z1);
    let g5 = gradient(hashes[5], x1, y, z1);
    let g6 = gradient(hashes[6], x, y1, z1);
    let g7 = gradient(hashes[7], x1, y1, z1);
    lerp(lerp(lerp(g0, g1, fx), lerp(g2, g3, fx), fy), lerp(lerp(g4, g5, fx), lerp(g6, g7, fx), fy), fz)
}

/// Each blend weight interpolates along its own axis: with the weights at a
/// corner of the cell (`fx`, `fy`, `fz` each 0 or 1, where every step of the
/// blend fits in an `i64`), the blend is the gradient of that corner, the
/// one offset by `(fx, fy, fz)`, which is entry `fx + 2 fy + 4 fz`.
pub proof fn lemma_blend_at_corners(g: Seq<i64>, fx: i64, fy: i64, fz: i64)
    requires
        g.len() == 8,
        0 <= fx <= 1,
        0 <= fy <= 1,
        0 <= fz <= 1,
        trilinear_req(g, fx, fy, fz),
    ensures
        trilinear_spec(g, fx, fy, fz) == g[fx + 2 * fy + 4 * fz],
{
    assert forall|a: i64, b: i64, t: i64| (t == 0 || t == 1) && #[trigger] lerp_req(a, b, t) implies
        lerp_spec(a, b, t) == if t == 0 { a } else { b } by {}
}

/// At a corner of the cell the noise is the gradient of that corner's hash at
/// the offset from that corner: `one` is taken off each coordinate whose
/// weight is 1 (for `i64`, where every step fits).
pub proof fn lemma_noise_at_corners(
    hashes: Seq<u8>,
    x: i64,
    y: i64,
    z: i64,
    one: i64,
    fx: i64,
    fy: i64,
    fz: i64,
)
    requires
        hashes.len() == 8,
        0 <= fx <= 1,
        0 <= fy <= 1,
        0 <= fz <= 1,
        corner_gradients_req(hashes, x, y, z, one),
        trilinear_req(corner_gradients(hashes, x, y, z, one), fx, fy, fz),
    ensures
        trilinear_spec(corner_gradients(hashes, x, y, z, one), fx, fy, fz) == gradient_spec(
            hashes[fx + 2 * fy + 4 * fz],
            if fx == 1 { x - one } else { x as int } as i64,
            if fy == 1 { y - one } else { y as int } as i64,
            if fz == 1 { z - one } else { z as int } as i64,
        ),
{
    lemma_blend_at_corners(corner_gradients(hashes, x, y, z, one), fx, fy, fz);
}

/// Every gradient is the dot product of the offset with one of the twelve
/// edge directions of a cube: two coordinates taken with a sign of +1 or -1,
/// the third left out (for `i64`, where the sum fits).
pub proof fn lemma_gradient_is_edge_direction(hash: u8, x: i64, y: i64, z: i64)
    requires
        gradient_req(hash, x, y, z),
    ensures
        exists|gx: int, gy: int, gz: int|
            #![trigger gx * x + gy * y + gz * z]
            {
                &&& -1 <= gx <= 1 && -1 <= gy <= 1 && -1 <= gz <= 1
                &&& (gx == 0) as int + (gy == 0) as int + (gz == 0) as int == 1
                &&& gradient_spec(hash, x, y, z) == gx * x + gy * y + gz * z
            },
{
    let h = hash % 16;
    let (gx, gy, gz): (int, int, int) = if h == 0 || h == 12 {
        (1, 1, 0)
    } else if h == 1 || h == 13 {
        (-1, 1, 0)
    } else if h == 2 {
        (1, -1, 0)
    } else if h == 3 {
        (-1, -1, 0)
    } else if h == 4 {
        (1, 0, 1)
    } else if h == 5 {
        (-1, 0, 1)
    } else if h == 6 {
        (1, 0, -1)
    } else if h == 7 {
        (-1, 0, -1)
    } else if h == 8 {
        (0, 1, 1)
    } else if h == 9 || h == 14 {
        (0, -1, 1)
    } else if h == 10 {
        (0, 1, -1)
    } else {
        (0, -1, -1)
    };
    lemma_signed_sum(gx, gy, gz, x as int, y as int, z as int);
}

proof fn lemma_signed_sum(gx: int, gy: int, gz: int, x: int, y: int, z: int)
    requires
        -1 <= gx <= 1,
        -1 <= gy <= 1,
        -1 <= gz <= 1,
    ensures
        gx * x + gy * y + gz * z == (if gx == 1 {
            x
        } else if gx == -1 {
            -x
        } else {
            0
        }) + (if gy == 1 {
            y
        } else if gy == -1 {
            -y
        } else {
            0
        }) + (if gz == 1 {
            z
        } else if gz == -1 {
            -z
        } else {
            0
        }),
{
    assert(gx * x == if gx == 1 { x } else if gx == -1 { -x } else { 0 }) by (nonlinear_arith)
        requires -1 <= gx <= 1;
    assert(gy * y == if gy == 1 { y } else if gy == -1 { -y } else { 0 }) by (nonlinear_arith)
        requires -1 <= gy <= 1;
    assert(gz * z == if gz == 1 { z } else if gz == -1 { -z } else { 0 }) by (nonlinear_arith)
        requires -1 <= gz <= 1;
}

/// Only the low four bits of a hash choose the gradient.
pub proof fn lemma_gradient_low_bits<T>(hash: u8, x: T, y: T, z: T)
    where
        T: Add<Output = T> + Sub<Output = T> + Neg<Output = T>,
    ensures
        gradient_spec(hash, x, y, z) == gradient_spec(hash % 16, x, y, z),
        gradient_spec(hash, x, y, z) == gradient_spec(hash & 15, x, y, z),
{
    assert(hash & 15 == hash % 16) by (bit_vector);
}

/// The smoothstep `((6t - 15)t + 10)t^3` as the operator specifications of
/// `T` define it.
pub open spec fn fade_spec<T>(t: T) -> T where
    T: From<i8> + Add<Output = T> + Sub<Output = T> + Mul<Output = T>,
 {
    let a = T::from_spec(6i8).mul_spec(t);
    let b = a.sub_spec(T::from_spec(15i8));
    let c = b.mul_spec(t);
    let d = c.add_spec(T::from_spec(10i8));
    d.mul_spec(t).mul_spec(t).mul_spec(t)
}

/// The operator preconditions of each step of [`fade_spec`].
pub open spec fn fade_req<T>(t: T) -> bool where
    T: From<i8> + Add<Output = T> + Sub<Output = T> + Mul<Output = T>,
 {
    let a = T::from_spec(6i8).mul_spec(t);
    let b = a.sub_spec(T::from_spec(15i8));
    let c = b.mul_spec(t);
    let d = c.add_spec(T::from_spec(10i8));
    &&& T::from_spec(6i8).mul_req(t)
    &&& a.sub_req(T::from_spec(15i8))
    &&& b.mul_req(t)
    &&& c.add_req(T::from_spec(10i8))
    &&& d.mul_req(t)
    &&& d.mul_spec(t).mul_req(t)
    &&& d.mul_spec(t).mul_spec(t).mul_req(t)
}

/// Perlin's fade curve, defined for `0 <= t <= 1`.
///
/// Proved for every number type whose operators and conversion from `i8`
/// follow their Verus specifications (the signed integers `i16` to `i128`);
/// other types, such as `f64`, are only exercised by the tests.
pub fn fade<T>(t: T) -> (r: T) where
    T: Copy + From<i8> + PartialOrd + Add<Output = T> + Sub<Output = T> + Mul<Output = T>,
    requires
        T::obeys_from_spec(),
        T::obeys_add_spec(),
        T::obeys_sub_spec(),
        T::obeys_mul_spec(),
        T::from_spec(0i8).is_le(&t),
        t.is_le(&T::from_spec(1i8)),
        fade_req(t),
    ensures
        r == fade_spec(t),
{
    let six = T::from(6i8);
    let fifteen = T::from(15i8);
    let ten = T::from(10i8);
    ((six * t - fifteen) * t + ten) * t * t * t
}

/// The fade curve starts at 0 and ends at 1 (shown for `i64`, where every
/// step of the curve fits).
pub proof fn lemma_fade_endpoints()
    ensures
        fade_req(0i64),
        fade_req(1i64),
        fade_spec(0i64) == 0,
        fade_spec(1i64) == 1,
{
}

/// A byte permutation holds every byte value: 256 distinct bytes leave none
/// out.
pub proof fn lemma_permutation_has_every_byte(s: Seq<u8>)
    requires
        is_byte_permutation(s),
    ensures
        forall|v: u8| #[trigger] s.contains(v),
{
    let t = Seq::new(256, |i: int| s[i] as int);
    assert forall|a: int, b: int| 0 <= a < t.len() && 0 <= b < t.len() && a != b implies t[a] != t[b] by {
        assert(s[a] != s[b]);
    }
    t.unique_seq_to_set();
    let range = vstd::set_lib::set_int_range(0, 256);
    vstd::set_lib::lemma_int_range(0, 256);
    assert(t.to_set().subset_of(range)) by {
        assert forall|x: int| t.to_set().contains(x) implies range.contains(x) by {
            let i = choose|i: int| 0 <= i < t.len() && t[i] == x;
            assert(t[i] == s[i] as int);
        }
    }
    vstd::set_lib::lemma_set_subset_finite(range, t.to_set());
    vstd::set_lib::lemma_subset_equality(t.to_set(), range);
    assert forall|v: u8| #[trigger] s.contains(v) by {
        assert(range.contains(v as int));
        assert(t.to_set().contains(v as int));
        let i = choose|i: int| 0 <= i < t.len() && t[i] == v as int;
        assert(s[i] == v);
    }
}

/// The bytes `0, 1, ..., 255` hold no value twice.
pub proof fn lemma_byte_identity_is_permutation()
    ensures
        is_byte_permutation(byte_identity()),
{
    assert forall|a: int, c: int|
        0 <= a < 256 && 0 <= c < 256 && a != c implies byte_identity()[a] != byte_identity()[c] by {
        assert(byte_identity()[a] == a as u8);
        assert(byte_identity()[c] == c as u8);
    }
}

} // verus!
