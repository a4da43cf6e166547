//! Lattice gradient noise: a table of random directions, reached through
//! three random permutations of the lattice coordinates, and interpolated
//! between the eight corners of the lattice cell of a point.

use crate::fixed::Fixed;
use crate::sampling::random_index;
use crate::vec3::{dot, random_unit_vector, Point3, Vec3};
use vstd::prelude::*;

verus! {

/// Number of directions in the table, and length of each permutation.
pub const POINT_COUNT: usize = 256;

/// The numbers `0, 1, ..., n-1` in order.
pub open spec fn identity_table(n: nat) -> Seq<u8> {
    Seq::new(n, |i: int| i as u8)
}

/// Whether `s` holds each of the numbers `0..256` once.
pub open spec fn is_permutation(s: Seq<u8>) -> bool {
    s.len() == POINT_COUNT && s.to_multiset() == identity_table(POINT_COUNT as nat).to_multiset()
}

/// The smoothing `t²·(3 - 2t)` of an interpolation weight.
pub open spec fn spec_hermite(t: Fixed) -> Fixed {
    t.mul(t).mul(Fixed::from_int(3).sub(Fixed::from_int(2).mul(t)))
}

#[verifier::when_used_as_spec(spec_hermite)]
fn hermite(t: Fixed) -> (r: Fixed)
    ensures
        r == spec_hermite(t),
{
    t.mul(t).mul(Fixed::from_int(3).sub(Fixed::from_int(2).mul(t)))
}

/// The share of a corner along one axis: `t` at the far corner (`d = 1`),
/// `1 - t` at the near one.
pub open spec fn spec_share(t: Fixed, d: int) -> Fixed {
    if d == 1 {
        t
    } else {
        Fixed::one().sub(t)
    }
}

/// The contribution of corner `n = 4i + 2j + k` of the cell: the product of
/// its three shares and of the dot product of its direction with the
/// vector from the corner to the point.
pub open spec fn spec_trilinear_term(c: Seq<Vec3>, u: Fixed, v: Fixed, w: Fixed, n: int) -> Fixed {
    let i = n / 4;
    let j = (n / 2) % 2;
    let k = n % 2;
    let weight_v = Vec3 {
        x: u.sub(Fixed::from_int(i as i32)),
        y: v.sub(Fixed::from_int(j as i32)),
        z: w.sub(Fixed::from_int(k as i32)),
    };
    spec_share(spec_hermite(u), i).mul(spec_share(spec_hermite(v), j)).mul(
        spec_share(spec_hermite(w), k),
    ).mul(dot(c[n], weight_v))
}

/// The contributions of the first `n` corners, added in order.
pub open spec fn spec_trilinear_sum(c: Seq<Vec3>, u: Fixed, v: Fixed, w: Fixed, n: int) -> Fixed
    decreases n,
{
    if n <= 0 {
        Fixed::zero()
    } else {
        spec_trilinear_sum(c, u, v, w, n - 1).add(spec_trilinear_term(c, u, v, w, n - 1))
    }
}

/// Interpolates between the directions `c` of the eight corners of a cell,
/// for a point at `(u, v, w)` within the cell.
pub fn trilinear_interp(c: &Vec<Vec3>, u: Fixed, v: Fixed, w: Fixed) -> (r: Fixed)
    requires
        c.len() == 8,
    ensures
        r == spec_trilinear_sum(c@, u, v, w, 8),
{
    let uu = hermite(u);
    let vv = hermite(v);
    let ww = hermite(w);
    let mut accum = Fixed::zero();
    let mut n: usize = 0;
    while n < 8
        invariant
            n <= 8,
            c.len() == 8,
            uu == spec_hermite(u),
            vv == spec_hermite(v),
            ww == spec_hermite(w),
            accum == spec_trilinear_sum(c@, u, v, w, n as int),
        decreases 8 - n,
    {
        let i: usize = n / 4;
        let j: usize = (n / 2) % 2;
        let k: usize = n % 2;
        let weight_v = Vec3::new(
            u.sub(Fixed::from_int(i as i32)),
            v.sub(Fixed::from_int(j as i32)),
            w.sub(Fixed::from_int(k as i32)),
        );
        let su = if i == 1 {
            uu
        } else {
            Fixed::one().sub(uu)
        };
        let sv = if j == 1 {
            vv
        } else {
            Fixed::one().sub(vv)
        };
        let sw = if k == 1 {
            ww
        } else {
            Fixed::one().sub(ww)
        };
        accum = accum.add(su.mul(sv).mul(sw).mul(dot(c[n], weight_v)));
        n += 1;
    }
    accum
}

/// Draws a permutation of `0..256`: starting from the identity, each place
/// from the last down to the second is swapped with a place drawn uniformly
/// from those up to and including it.
pub fn generate_perm() -> (p: Vec<u8>)
    ensures
        is_permutation(p@),
{
    let mut p: Vec<u8> = Vec::new();
    let mut n: usize = 0;
    while n < POINT_COUNT
        invariant
            n <= POINT_COUNT,
            p@ == identity_table(n as nat),
        decreases POINT_COUNT - n,
    {
        p.push(n as u8);
        assert(p@ =~= identity_table((n + 1) as nat));
        n += 1;
    }
    let mut i: usize = POINT_COUNT - 1;
    while i > 0
        invariant
            i < POINT_COUNT,
            is_permutation(p@),
        decreases i,
    {
        let target = random_index(i);
        let a = p[i];
        let b = p[target];
        let ghost before = p@;
        p.set(i, b);
        p.set(target, a);
        proof {
            broadcast use vstd::seq_lib::to_multiset_update;

            let mid = before.update(i as int, b);
            before.to_multiset_ensures();
            mid.to_multiset_ensures();
            assert(before.to_multiset().count(before[i as int]) > 0);
            assert(mid.to_multiset().count(mid[target as int]) > 0);
            assert(mid.to_multiset() == before.to_multiset().insert(b).remove(a));
            assert(p@ == mid.update(target as int, a));
            assert(mid[target as int] == b);
            assert(p@.to_multiset() == mid.to_multiset().insert(a).remove(b));
            assert(p@.to_multiset() =~= before.to_multiset());
        }
        i -= 1;
    }
    p
}

/// Place in a table of 256 entries of the lattice coordinate `base + d`.
pub open spec fn spec_lattice_index(base: int, d: int) -> int {
    (base + d) % 256
}

fn lattice_index(base: i64, d: i64) -> (r: usize)
    requires
        -0x8000_0000 <= base < 0x8000_0000,
        0 <= d <= 1,
    ensures
        r == spec_lattice_index(base as int, d as int),
        r < 256,
{
    let x: i64 = base + d;
    if x >= 0 {
        (x % 256) as usize
    } else {
        let back: i64 = (-x) % 256;
        if back == 0 {
            0
        } else {
            (256 - back) as usize
        }
    }
}

pub struct Perlin {
    rand_vec: Vec<Vec3>,
    perm_x: Vec<u8>,
    perm_y: Vec<u8>,
    perm_z: Vec<u8>,
}

impl Perlin {
    #[verifier::type_invariant]
    spec fn tables_are_whole(self) -> bool {
        &&& self.rand_vec@.len() == POINT_COUNT
        &&& is_permutation(self.perm_x@)
        &&& is_permutation(self.perm_y@)
        &&& is_permutation(self.perm_z@)
    }

    /// The part of `x` above the largest whole number not above it.
    pub open spec fn spec_fraction(x: Fixed) -> Fixed {
        x.sub(Fixed::spec_from_raw(x.spec_floor() * crate::fixed::ONE_RAW))
    }

    /// The direction at corner `n = 4·di + 2·dj + dk` of the lattice cell of
    /// `p`: the entry of the table at the exclusive-or of the three
    /// permuted lattice coordinates.
    pub open spec fn spec_corner(&self, p: Point3, n: int) -> Vec3 {
        let x = self.spec_perm_x()[spec_lattice_index(p.x.spec_floor(), n / 4)];
        let y = self.spec_perm_y()[spec_lattice_index(p.y.spec_floor(), (n / 2) % 2)];
        let z = self.spec_perm_z()[spec_lattice_index(p.z.spec_floor(), n % 2)];
        self.spec_directions()[(x ^ y ^ z) as int]
    }

    /// The table of directions.
    pub closed spec fn spec_directions(&self) -> Seq<Vec3> {
        self.rand_vec@
    }

    /// The permutation of the lattice coordinate along x.
    pub closed spec fn spec_perm_x(&self) -> Seq<u8> {
        self.perm_x@
    }

    /// The permutation of the lattice coordinate along y.
    pub closed spec fn spec_perm_y(&self) -> Seq<u8> {
        self.perm_y@
    }

    /// The permutation of the lattice coordinate along z.
    pub closed spec fn spec_perm_z(&self) -> Seq<u8> {
        self.perm_z@
    }

    /// Whether the table holds 256 directions that `random_unit_vector` can
    /// draw and the three permutations are permutations of `0..256`.
    pub open spec fn well_made(&self) -> bool {
        &&& self.spec_directions().len() == POINT_COUNT
        &&& forall|i: int|
            0 <= i < POINT_COUNT ==> crate::vec3::is_unit_draw(#[trigger] self.spec_directions()[i])
        &&& is_permutation(self.spec_perm_x())
        &&& is_permutation(self.spec_perm_y())
        &&& is_permutation(self.spec_perm_z())
    }

    /// The noise at `p`: the directions at the corners of the cell of `p`,
    /// interpolated at the place of `p` within the cell.
    pub open spec fn spec_noise(&self, p: Point3) -> Fixed {
        spec_trilinear_sum(
            Seq::new(8, |n: int| self.spec_corner(p, n)),
            Perlin::spec_fraction(p.x),
            Perlin::spec_fraction(p.y),
            Perlin::spec_fraction(p.z),
            8,
        )
    }

    /// The sum, added to `accum`, of `remaining` octaves of noise: each
    /// octave doubles the point and halves the weight.
    pub open spec fn spec_octaves(&self, accum: Fixed, p: Point3, weight: Fixed, remaining: int)
        -> Fixed
        decreases remaining,
    {
        if remaining <= 0 {
            accum
        } else {
            self.spec_octaves(
                accum.add(weight.mul(self.spec_noise(p))),
                p.scale(Fixed::from_int(2)),
                weight.mul(Fixed::from_ratio(1, 2)),
                remaining - 1,
            )
        }
    }

    /// Turbulence: the magnitude of the sum of `depth` octaves.
    pub open spec fn spec_turb(&self, p: Point3, depth: i32) -> Fixed {
        self.spec_octaves(Fixed::zero(), p, Fixed::one(), depth as int).abs()
    }

    /// A table of 256 random directions and three random permutations.
    pub fn new() -> (r: Perlin)
        ensures
            r.well_made(),
    {
        let mut rand_vec: Vec<Vec3> = Vec::new();
        let mut n: usize = 0;
        while n < POINT_COUNT
            invariant
                n <= POINT_COUNT,
                rand_vec@.len() == n,
                forall|i: int| 0 <= i < n ==> crate::vec3::is_unit_draw(#[trigger] rand_vec@[i]),
            decreases POINT_COUNT - n,
        {
            rand_vec.push(random_unit_vector());
            n += 1;
        }
        let perm_x = generate_perm();
        let perm_y = generate_perm();
        let perm_z = generate_perm();
        Perlin { rand_vec, perm_x, perm_y, perm_z }
    }

    pub fn noise(&self, p: Point3) -> (r: Fixed)
        ensures
            r == self.spec_noise(p),
    {
        proof {
            use_type_invariant(self);
        }
        let i: i64 = p.x.floor();
        let j: i64 = p.y.floor();
        let k: i64 = p.z.floor();
        let u = p.x.sub(Fixed::from_raw(i * crate::fixed::ONE_RAW));
        let v = p.y.sub(Fixed::from_raw(j * crate::fixed::ONE_RAW));
        let w = p.z.sub(Fixed::from_raw(k * crate::fixed::ONE_RAW));
        let mut c: Vec<Vec3> = Vec::new();
        let mut n: usize = 0;
        while n < 8
            invariant
                n <= 8,
                c@.len() == n,
                i == p.x.spec_floor(),
                j == p.y.spec_floor(),
                k == p.z.spec_floor(),
                self.rand_vec@.len() == POINT_COUNT,
                self.perm_x@.len() == POINT_COUNT,
                self.perm_y@.len() == POINT_COUNT,
                self.perm_z@.len() == POINT_COUNT,
                forall|m: int| 0 <= m < n ==> c@[m] == self.spec_corner(p, m),
            decreases 8 - n,
        {
            let x = self.perm_x[lattice_index(i, (n / 4) as i64)];
            let y = self.perm_y[lattice_index(j, ((n / 2) % 2) as i64)];
            let z = self.perm_z[lattice_index(k, (n % 2) as i64)];
            c.push(self.rand_vec[(x ^ y ^ z) as usize]);
            n += 1;
        }
        assert(c@ =~= Seq::new(8, |m: int| self.spec_corner(p, m)));
        trilinear_interp(&c, u, v, w)
    }

    pub fn turb(&self, p: Point3, depth: i32) -> (r: Fixed)
        ensures
            r == self.spec_turb(p, depth),
    {
        let mut accum = Fixed::zero();
        let mut temp_p = p;
        let mut weight = Fixed::one();
        let mut i: i32 = 0;
        while i < depth
            invariant
                0 <= i,
                i <= depth || depth < 0,
                self.spec_octaves(accum, temp_p, weight, depth - i) == self.spec_octaves(
                    Fixed::zero(),
                    p,
                    Fixed::one(),
                    depth as int,
                ),
            decreases depth - i,
        {
            accum = accum.add(weight.mul(self.noise(temp_p)));
            weight = weight.mul(Fixed::from_ratio(1, 2));
            temp_p = temp_p.scale(Fixed::from_int(2));
            i += 1;
        }
        accum.abs()
    }
}

} // verus!
