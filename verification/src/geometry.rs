//! Vectors and 4x4 homogeneous matrices in 16.16 fixed-point arithmetic.
//!
//! `Vertex2` and `Vertex3` hold plain `i64` components; depending on the
//! pipeline stage a component is either an integer screen coordinate or a
//! fixed-point world/clip coordinate (the real value times `SCALE`).
//! `Matrix4` entries are always fixed-point, so the real number 1 is the
//! entry `SCALE`.

use crate::fixed::{div_trunc, fx_mul, iabs, is_sqrt, isqrt, lemma_tdiv_exact, tdiv, SCALE};
use vstd::arithmetic::div_mod::*;
use vstd::arithmetic::mul::*;
use vstd::prelude::*;

verus! {

/// Bound on matrix entries (and on the vector components fed to the
/// matrix routines) under which a 4x4 fixed-point multiplication cannot
/// overflow `i64`: four products of two such entries stay below `2^62`.
pub const ENTRY_LIMIT: i64 = 0x4000_0000;

/// A fixed-point scalar factor.
pub struct Scalar {
    pub value: i64,
}

#[derive(Debug, Copy, Clone, PartialEq, Eq, Structural)]
#[verifier::ext_equal]
pub struct Vertex3<T> {
    pub x: T,
    pub y: T,
    pub z: T,
}

#[derive(Debug, Copy, Clone, PartialEq, Eq, Structural)]
#[verifier::ext_equal]
pub struct Vertex2<T> {
    pub x: T,
    pub y: T,
}

/// Row-major 4x4 matrix of fixed-point entries.
#[derive(Debug, Clone, Copy)]
#[verifier::ext_equal]
pub struct Matrix4 {
    pub m: [[i64; 4]; 4],
}

impl<T> Vertex2<T> {
    pub fn new(x: i64, y: i64) -> (r: Vertex2<i64>)
        ensures
            r.x == x,
            r.y == y,
    {
        Vertex2 { x, y }
    }

    /// Component by ordinal: 0 is x, 1 is y; anything else is out of range.
    pub fn at(&self, i: i32) -> (r: Option<&T>)
        ensures
            i == 0 ==> r == Some(&self.x),
            i == 1 ==> r == Some(&self.y),
            !(0 <= i <= 1) ==> r.is_none(),
    {
        match i {
            0 => Some(&self.x),
            1 => Some(&self.y),
            _ => None,
        }
    }
}

impl<T> Vertex3<T> {
    /// Component by ordinal: 0 is x, 1 is y, 2 is z; anything else is out
    /// of range.
    pub fn at(&self, i: i32) -> (r: Option<&T>)
        ensures
            i == 0 ==> r == Some(&self.x),
            i == 1 ==> r == Some(&self.y),
            i == 2 ==> r == Some(&self.z),
            !(0 <= i <= 2) ==> r.is_none(),
    {
        match i {
            0 => Some(&self.x),
            1 => Some(&self.y),
            2 => Some(&self.z),
            _ => None,
        }
    }
}

impl Vertex3<i64> {
    /// The zero vector.
    pub fn new() -> (r: Vertex3<i64>)
        ensures
            r.x == 0 && r.y == 0 && r.z == 0,
    {
        Vertex3 { x: 0, y: 0, z: 0 }
    }

    pub fn init(x: i64, y: i64, z: i64) -> (r: Vertex3<i64>)
        ensures
            r.x == x && r.y == y && r.z == z,
    {
        Vertex3 { x, y, z }
    }

    /// Maps a clip-space point (components fixed-point in [-1, 1]) to
    /// screen space: `x' = (x + 1) * width / 2 + 1/2`, and likewise for
    /// `y` with `height`; `z` is kept.
    pub fn to_screen(&self, height: u32, width: u32) -> (r: Vertex3<i64>)
        requires
            -ENTRY_LIMIT <= self.x <= ENTRY_LIMIT,
            -ENTRY_LIMIT <= self.y <= ENTRY_LIMIT,
            height <= 0x10000,
            width <= 0x10000,
        ensures
            r.x == tdiv((self.x + SCALE) * width, 2) + SCALE / 2,
            r.y == tdiv((self.y + SCALE) * height, 2) + SCALE / 2,
            r.z == self.z,
    {
        proof {
            lemma_mul_upper_bound(iabs(self.x + SCALE), ENTRY_LIMIT + SCALE, width as int, 0x10000);
            lemma_mul_upper_bound(iabs(self.y + SCALE), ENTRY_LIMIT + SCALE, height as int, 0x10000);
            assert(iabs((self.x + SCALE) * (width as int)) <= iabs(self.x + SCALE) * (width as int))
                by (nonlinear_arith);
            assert(iabs((self.y + SCALE) * (height as int)) <= iabs(self.y + SCALE) * (height as int))
                by (nonlinear_arith);
        }
        let sx: i64 = (self.x + SCALE) * (width as i64);
        let sy: i64 = (self.y + SCALE) * (height as i64);
        Vertex3 { x: div_trunc(sx, 2) + SCALE / 2, y: div_trunc(sy, 2) + SCALE / 2, z: self.z }
    }

    /// The homogeneous column vector `(x, y, z, 1)` as a matrix.
    pub fn to_matrix(&self) -> (r: Matrix4)
        ensures
            r == self.to_matrix_spec(),
    {
        Matrix4 {
            m: [
                [self.x, 0, 0, 0],
                [self.y, 0, 0, 0],
                [self.z, 0, 0, 0],
                [SCALE, 0, 0, 0],
            ],
        }
    }

    pub open spec fn to_matrix_spec(&self) -> Matrix4 {
        Matrix4 {
            m: [
                [self.x, 0, 0, 0],
                [self.y, 0, 0, 0],
                [self.z, 0, 0, 0],
                [SCALE as i64, 0, 0, 0],
            ],
        }
    }
}

/// All entries of `a` are bounded by `ENTRY_LIMIT` in magnitude.
pub open spec fn mat_bounded(a: Matrix4) -> bool {
    forall|i: int, j: int|
        0 <= i < 4 && 0 <= j < 4 ==> -ENTRY_LIMIT <= #[trigger] a.m[i][j] <= ENTRY_LIMIT
}

/// The exact inner product of row `i` of `a` with column `j` of `b`.
pub open spec fn mat_row_col(a: Matrix4, b: Matrix4, i: int, j: int) -> int {
    a.m[i][0] * b.m[0][j] + a.m[i][1] * b.m[1][j] + a.m[i][2] * b.m[2][j] + a.m[i][3] * b.m[3][j]
}

/// Entry `(i, j)` of the fixed-point product `a * b`: the inner product,
/// scaled back down by `SCALE` with truncation.
pub open spec fn mat_mul_entry(a: Matrix4, b: Matrix4, i: int, j: int) -> i64 {
    tdiv(mat_row_col(a, b, i, j), SCALE as int) as i64
}

/// The fixed-point matrix product.
pub open spec fn mat_mul_spec(a: Matrix4, b: Matrix4) -> Matrix4 {
    Matrix4 {
        m: [
            [
                mat_mul_entry(a, b, 0, 0),
                mat_mul_entry(a, b, 0, 1),
                mat_mul_entry(a, b, 0, 2),
                mat_mul_entry(a, b, 0, 3),
            ],
            [
                mat_mul_entry(a, b, 1, 0),
                mat_mul_entry(a, b, 1, 1),
                mat_mul_entry(a, b, 1, 2),
                mat_mul_entry(a, b, 1, 3),
            ],
            [
                mat_mul_entry(a, b, 2, 0),
                mat_mul_entry(a, b, 2, 1),
                mat_mul_entry(a, b, 2, 2),
                mat_mul_entry(a, b, 2, 3),
            ],
            [
                mat_mul_entry(a, b, 3, 0),
                mat_mul_entry(a, b, 3, 1),
                mat_mul_entry(a, b, 3, 2),
                mat_mul_entry(a, b, 3, 3),
            ],
        ],
    }
}

/// The identity transform: `SCALE` (the fixed-point 1) on the diagonal.
pub open spec fn mat_identity_spec() -> Matrix4 {
    Matrix4 {
        m: [
            [SCALE as i64, 0, 0, 0],
            [0, SCALE as i64, 0, 0],
            [0, 0, SCALE as i64, 0],
            [0, 0, 0, SCALE as i64],
        ],
    }
}

impl Matrix4 {
    /// The all-zero matrix.
    pub fn new() -> (r: Matrix4)
        ensures
            forall|i: int, j: int| 0 <= i < 4 && 0 <= j < 4 ==> #[trigger] r.m[i][j] == 0,
    {
        Matrix4 { m: [[0, 0, 0, 0], [0, 0, 0, 0], [0, 0, 0, 0], [0, 0, 0, 0]] }
    }

    pub fn get(&self, x: usize, y: usize) -> (r: i64)
        requires
            x < 4,
            y < 4,
        ensures
            r == self.m[x as int][y as int],
    {
        self.m[x][y]
    }

    pub fn set(&mut self, x: usize, y: usize, value: i64)
        requires
            x < 4,
            y < 4,
        ensures
            final(self).m[x as int][y as int] == value,
            forall|i: int, j: int|
                0 <= i < 4 && 0 <= j < 4 && !(i == x && j == y) ==> #[trigger] final(self).m[i][j]
                    == old(self).m[i][j],
    {
        let mut row: [i64; 4] = self.m[x];
        row[y] = value;
        self.m[x] = row;
    }

    pub fn identity() -> (r: Matrix4)
        ensures
            r == mat_identity_spec(),
    {
        Matrix4 {
            m: [[SCALE, 0, 0, 0], [0, SCALE, 0, 0], [0, 0, SCALE, 0], [0, 0, 0, SCALE]],
        }
    }

    /// The Cartesian point of the homogeneous column stored in this
    /// matrix: rows 0..2 of column 0, each divided by the `w` entry at
    /// row 3 (a fixed-point division).
    pub fn to_vector(&self) -> (r: Vertex3<i64>)
        requires
            self.m[3][0] != 0,
            -ENTRY_LIMIT <= self.m[0][0] <= ENTRY_LIMIT,
            -ENTRY_LIMIT <= self.m[1][0] <= ENTRY_LIMIT,
            -ENTRY_LIMIT <= self.m[2][0] <= ENTRY_LIMIT,
        ensures
            r.x == tdiv(self.m[0][0] * SCALE, self.m[3][0] as int),
            r.y == tdiv(self.m[1][0] * SCALE, self.m[3][0] as int),
            r.z == tdiv(self.m[2][0] * SCALE, self.m[3][0] as int),
    {
        proof {
            lemma_bounded_product(self.m[0][0] as int, ENTRY_LIMIT as int, SCALE as int);
            lemma_bounded_product(self.m[1][0] as int, ENTRY_LIMIT as int, SCALE as int);
            lemma_bounded_product(self.m[2][0] as int, ENTRY_LIMIT as int, SCALE as int);
        }
        let w: i64 = self.m[3][0];
        Vertex3 {
            x: div_trunc(self.m[0][0] * SCALE, w),
            y: div_trunc(self.m[1][0] * SCALE, w),
            z: div_trunc(self.m[2][0] * SCALE, w),
        }
    }
}

/// Matrices are equal when every entry is equal.
pub open spec fn mat_eq_spec(a: Matrix4, b: Matrix4) -> bool {
    forall|i: int, j: int| 0 <= i < 4 && 0 <= j < 4 ==> #[trigger] a.m[i][j] == b.m[i][j]
}

impl PartialEq for Matrix4 {
    fn eq(&self, other: &Matrix4) -> (r: bool) {
        let mut x: usize = 0;
        while x < 4
            invariant
                x <= 4,
                forall|i: int, j: int|
                    0 <= i < x && 0 <= j < 4 ==> #[trigger] self.m[i][j] == other.m[i][j],
            decreases 4 - x,
        {
            let mut y: usize = 0;
            while y < 4
                invariant
                    x < 4,
                    y <= 4,
                    forall|i: int, j: int|
                        0 <= i < x && 0 <= j < 4 ==> #[trigger] self.m[i][j] == other.m[i][j],
                    forall|j: int| 0 <= j < y ==> #[trigger] self.m[x as int][j] == other.m[x as int][j],
                decreases 4 - y,
            {
                if self.m[x][y] != other.m[x][y] {
                    return false;
                }
                y += 1;
            }
            x += 1;
        }
        true
    }
}

impl vstd::std_specs::cmp::PartialEqSpecImpl for Matrix4 {
    open spec fn obeys_eq_spec() -> bool {
        true
    }

    open spec fn eq_spec(&self, other: &Matrix4) -> bool {
        mat_eq_spec(*self, *other)
    }
}

/// One entry of the fixed-point matrix product.
fn mul_entry(a: &Matrix4, b: &Matrix4, i: usize, j: usize) -> (r: i64)
    requires
        i < 4,
        j < 4,
        mat_bounded(*a),
        mat_bounded(*b),
    ensures
        r == mat_mul_entry(*a, *b, i as int, j as int),
{
    proof {
        lemma_abs_product(a.m[i as int][0] as int, b.m[0][j as int] as int, ENTRY_LIMIT as int);
        lemma_abs_product(a.m[i as int][1] as int, b.m[1][j as int] as int, ENTRY_LIMIT as int);
        lemma_abs_product(a.m[i as int][2] as int, b.m[2][j as int] as int, ENTRY_LIMIT as int);
        lemma_abs_product(a.m[i as int][3] as int, b.m[3][j as int] as int, ENTRY_LIMIT as int);
    }
    let s: i64 = a.m[i][0] * b.m[0][j] + a.m[i][1] * b.m[1][j] + a.m[i][2] * b.m[2][j] + a.m[i][3]
        * b.m[3][j];
    div_trunc(s, SCALE)
}

impl core::ops::Mul<Matrix4> for Matrix4 {
    type Output = Matrix4;

    /// The standard matrix product, with each entry scaled back down by
    /// `SCALE`.
    fn mul(self, rhs: Matrix4) -> (r: Matrix4) {
        let r = Matrix4 {
            m: [
                [
                    mul_entry(&self, &rhs, 0, 0),
                    mul_entry(&self, &rhs, 0, 1),
                    mul_entry(&self, &rhs, 0, 2),
                    mul_entry(&self, &rhs, 0, 3),
                ],
                [
                    mul_entry(&self, &rhs, 1, 0),
                    mul_entry(&self, &rhs, 1, 1),
                    mul_entry(&self, &rhs, 1, 2),
                    mul_entry(&self, &rhs, 1, 3),
                ],
                [
                    mul_entry(&self, &rhs, 2, 0),
                    mul_entry(&self, &rhs, 2, 1),
                    mul_entry(&self, &rhs, 2, 2),
                    mul_entry(&self, &rhs, 2, 3),
                ],
                [
                    mul_entry(&self, &rhs, 3, 0),
                    mul_entry(&self, &rhs, 3, 1),
                    mul_entry(&self, &rhs, 3, 2),
                    mul_entry(&self, &rhs, 3, 3),
                ],
            ],
        };
        proof {
            broadcast use vstd::array::group_array_axioms;

            let s = mat_mul_spec(self, rhs);
            assert(r.m@[0]@ =~= s.m@[0]@);
            assert(r.m@[1]@ =~= s.m@[1]@);
            assert(r.m@[2]@ =~= s.m@[2]@);
            assert(r.m@[3]@ =~= s.m@[3]@);
            assert(r.m@ =~= s.m@);
        }
        r
    }
}

impl vstd::std_specs::ops::MulSpecImpl<Matrix4> for Matrix4 {
    open spec fn obeys_mul_spec() -> bool {
        true
    }

    open spec fn mul_req(self, rhs: Matrix4) -> bool {
        mat_bounded(self) && mat_bounded(rhs)
    }

    open spec fn mul_spec(self, rhs: Matrix4) -> Matrix4 {
        mat_mul_spec(self, rhs)
    }
}

/// The first barycentric cross-product component for triangle
/// `(v0, v1, v2)` and point `p`, all given by their screen coordinates:
/// the numerator of the weight of `v2`.
pub open spec fn bary_u(
    v0x: int,
    v0y: int,
    v1x: int,
    v1y: int,
    v2x: int,
    v2y: int,
    px: int,
    py: int,
) -> int {
    (v1x - v0x) * (v0y - py) - (v0x - px) * (v1y - v0y)
}

/// The second barycentric cross-product component: the numerator of the
/// weight of `v1`.
pub open spec fn bary_v(
    v0x: int,
    v0y: int,
    v1x: int,
    v1y: int,
    v2x: int,
    v2y: int,
    px: int,
    py: int,
) -> int {
    (v0x - px) * (v2y - v0y) - (v2x - v0x) * (v0y - py)
}

/// The third barycentric cross-product component: twice the signed area
/// of the triangle, the common denominator of all three weights. Zero
/// exactly for a degenerate triangle.
pub open spec fn bary_den(v0x: int, v0y: int, v1x: int, v1y: int, v2x: int, v2y: int) -> int {
    (v2x - v0x) * (v1y - v0y) - (v1x - v0x) * (v2y - v0y)
}

impl Vertex3<i64> {
    /// The Euclidean length, as the integer square root of the exact sum
    /// of squares: for a fixed-point vector this is the fixed-point norm,
    /// rounded down.
    pub fn norm(&self) -> (r: i64)
        requires
            v3_bounded(*self, NORM_LIMIT as int),
        ensures
            is_sqrt(norm_sq(*self), r as int),
            r == norm_spec(*self),
            0 <= r < 0x2000_0000_0000,
    {
        proof {
            lemma_abs_product(self.x as int, self.x as int, NORM_LIMIT as int);
            lemma_abs_product(self.y as int, self.y as int, NORM_LIMIT as int);
            lemma_abs_product(self.z as int, self.z as int, NORM_LIMIT as int);
            assert(self.x * self.x >= 0 && self.y * self.y >= 0 && self.z * self.z >= 0)
                by (nonlinear_arith);
        }
        let xx: i128 = (self.x as i128) * (self.x as i128);
        let yy: i128 = (self.y as i128) * (self.y as i128);
        let zz: i128 = (self.z as i128) * (self.z as i128);
        let s: u128 = (xx + yy + zz) as u128;
        let r64: u64 = isqrt(s);
        proof {
            if r64 >= 0x2000_0000_0000 {
                lemma_mul_inequality(0x2000_0000_0000, r64 as int, r64 as int);
                lemma_mul_inequality(0x2000_0000_0000, r64 as int, 0x2000_0000_0000);
                lemma_mul_is_commutative(r64 as int, 0x2000_0000_0000);
                assert(false);
            }
            lemma_sqrt_unique(norm_sq(*self), r64 as int, norm_spec(*self));
        }
        r64 as i64
    }

    /// The vector scaled to fixed-point unit length: each component
    /// becomes `c * SCALE / norm`, truncated toward zero. The zero vector
    /// has no direction and is excluded.
    pub fn normalize(&self) -> (r: Vertex3<i64>)
        requires
            v3_bounded(*self, NORM_LIMIT as int),
            norm_sq(*self) > 0,
        ensures
            r.x == tdiv(self.x * SCALE, norm_spec(*self)),
            r.y == tdiv(self.y * SCALE, norm_spec(*self)),
            r.z == tdiv(self.z * SCALE, norm_spec(*self)),
            v3_bounded(r, SCALE as int),
    {
        let n: i64 = self.norm();
        proof {
            let k = norm_sq(*self);
            assert(n >= 1) by (nonlinear_arith)
                requires
                    0 <= n,
                    (n + 1) * (n + 1) > k,
                    k > 0,
            ;
            lemma_component_le_norm(*self, n as int);
            lemma_bounded_product(self.x as int, NORM_LIMIT as int, SCALE as int);
            lemma_bounded_product(self.y as int, NORM_LIMIT as int, SCALE as int);
            lemma_bounded_product(self.z as int, NORM_LIMIT as int, SCALE as int);
            assert(iabs(self.x * SCALE) == iabs(self.x as int) * SCALE) by (nonlinear_arith)
                requires
                    SCALE == 65536,
            ;
            assert(iabs(self.y * SCALE) == iabs(self.y as int) * SCALE) by (nonlinear_arith)
                requires
                    SCALE == 65536,
            ;
            assert(iabs(self.z * SCALE) == iabs(self.z as int) * SCALE) by (nonlinear_arith)
                requires
                    SCALE == 65536,
            ;
            lemma_mul_inequality(iabs(self.x as int), n as int, SCALE as int);
            lemma_mul_inequality(iabs(self.y as int), n as int, SCALE as int);
            lemma_mul_inequality(iabs(self.z as int), n as int, SCALE as int);
            lemma_tdiv_magnitude(self.x * SCALE, n as int, SCALE as int);
            lemma_tdiv_magnitude(self.y * SCALE, n as int, SCALE as int);
            lemma_tdiv_magnitude(self.z * SCALE, n as int, SCALE as int);
        }
        Vertex3 {
            x: div_trunc(self.x * SCALE, n),
            y: div_trunc(self.y * SCALE, n),
            z: div_trunc(self.z * SCALE, n),
        }
    }

    /// The right-handed cross product, exact.
    pub fn cross(u: Vertex3<i64>, v: Vertex3<i64>) -> (r: Vertex3<i64>)
        requires
            v3_bounded(u, ENTRY_LIMIT as int),
            v3_bounded(v, ENTRY_LIMIT as int),
        ensures
            r.x == cross_x(u, v),
            r.y == cross_y(u, v),
            r.z == cross_z(u, v),
    {
        proof {
            lemma_abs_product(u.y as int, v.z as int, ENTRY_LIMIT as int);
            lemma_abs_product(u.z as int, v.y as int, ENTRY_LIMIT as int);
            lemma_abs_product(u.z as int, v.x as int, ENTRY_LIMIT as int);
            lemma_abs_product(u.x as int, v.z as int, ENTRY_LIMIT as int);
            lemma_abs_product(u.x as int, v.y as int, ENTRY_LIMIT as int);
            lemma_abs_product(u.y as int, v.x as int, ENTRY_LIMIT as int);
        }
        Vertex3 {
            x: u.y * v.z - u.z * v.y,
            y: u.z * v.x - u.x * v.z,
            z: u.x * v.y - u.y * v.x,
        }
    }

    /// Barycentric coordinates of point `p` with respect to the triangle
    /// `(v0, v1, v2)`, using only the x and y components. Returns
    /// fixed-point weights `(w0, w1, w2)` for `(v0, v1, v2)`, in that
    /// order; a degenerate triangle (zero area) yields the sentinel
    /// `(-1, 1, 1)` whose negative first weight makes every point count
    /// as outside.
    pub fn barycentric(
        v0: Vertex3<i64>,
        v1: Vertex3<i64>,
        v2: Vertex3<i64>,
        p: Vertex3<i64>,
    ) -> (r: Vertex3<i64>)
        requires
            -SCREEN_LIMIT <= v0.x <= SCREEN_LIMIT,
            -SCREEN_LIMIT <= v0.y <= SCREEN_LIMIT,
            -SCREEN_LIMIT <= v1.x <= SCREEN_LIMIT,
            -SCREEN_LIMIT <= v1.y <= SCREEN_LIMIT,
            -SCREEN_LIMIT <= v2.x <= SCREEN_LIMIT,
            -SCREEN_LIMIT <= v2.y <= SCREEN_LIMIT,
            -SCREEN_LIMIT <= p.x <= SCREEN_LIMIT,
            -SCREEN_LIMIT <= p.y <= SCREEN_LIMIT,
        ensures
            bary_weights_match(
                v0.x as int,
                v0.y as int,
                v1.x as int,
                v1.y as int,
                v2.x as int,
                v2.y as int,
                p.x as int,
                p.y as int,
                r,
            ),
    {
        bary_screen(v0.x, v0.y, v1.x, v1.y, v2.x, v2.y, p.x, p.y)
    }
}

impl Vertex2<i64> {
    /// Barycentric coordinates of point `p` with respect to the triangle
    /// `(v0, v1, v2)`; same convention as `Vertex3::barycentric`.
    pub fn barycentric(
        v0: Vertex2<i64>,
        v1: Vertex2<i64>,
        v2: Vertex2<i64>,
        p: Vertex2<i64>,
    ) -> (r: Vertex3<i64>)
        requires
            -SCREEN_LIMIT <= v0.x <= SCREEN_LIMIT,
            -SCREEN_LIMIT <= v0.y <= SCREEN_LIMIT,
            -SCREEN_LIMIT <= v1.x <= SCREEN_LIMIT,
            -SCREEN_LIMIT <= v1.y <= SCREEN_LIMIT,
            -SCREEN_LIMIT <= v2.x <= SCREEN_LIMIT,
            -SCREEN_LIMIT <= v2.y <= SCREEN_LIMIT,
            -SCREEN_LIMIT <= p.x <= SCREEN_LIMIT,
            -SCREEN_LIMIT <= p.y <= SCREEN_LIMIT,
        ensures
            bary_weights_match(
                v0.x as int,
                v0.y as int,
                v1.x as int,
                v1.y as int,
                v2.x as int,
                v2.y as int,
                p.x as int,
                p.y as int,
                r,
            ),
    {
        bary_screen(v0.x, v0.y, v1.x, v1.y, v2.x, v2.y, p.x, p.y)
    }
}

/// `r` holds the fixed-point barycentric weights of `p` in the triangle,
/// or the degenerate sentinel.
pub open spec fn bary_weights_match(
    v0x: int,
    v0y: int,
    v1x: int,
    v1y: int,
    v2x: int,
    v2y: int,
    px: int,
    py: int,
    r: Vertex3<i64>,
) -> bool {
    let u = bary_u(v0x, v0y, v1x, v1y, v2x, v2y, px, py);
    let v = bary_v(v0x, v0y, v1x, v1y, v2x, v2y, px, py);
    let den = bary_den(v0x, v0y, v1x, v1y, v2x, v2y);
    if den == 0 {
        r == (Vertex3 { x: (-SCALE) as i64, y: SCALE as i64, z: SCALE as i64 })
    } else {
        &&& r.x == SCALE - tdiv((u + v) * SCALE, den)
        &&& r.y == tdiv(v * SCALE, den)
        &&& r.z == tdiv(u * SCALE, den)
    }
}

/// Shared body of the two `barycentric` methods: builds the two
/// auxiliary vectors from the x- and y-differences, crosses them, and
/// divides by the z component.
fn bary_screen(
    v0x: i64,
    v0y: i64,
    v1x: i64,
    v1y: i64,
    v2x: i64,
    v2y: i64,
    px: i64,
    py: i64,
) -> (r: Vertex3<i64>)
    requires
        -SCREEN_LIMIT <= v0x <= SCREEN_LIMIT,
        -SCREEN_LIMIT <= v0y <= SCREEN_LIMIT,
        -SCREEN_LIMIT <= v1x <= SCREEN_LIMIT,
        -SCREEN_LIMIT <= v1y <= SCREEN_LIMIT,
        -SCREEN_LIMIT <= v2x <= SCREEN_LIMIT,
        -SCREEN_LIMIT <= v2y <= SCREEN_LIMIT,
        -SCREEN_LIMIT <= px <= SCREEN_LIMIT,
        -SCREEN_LIMIT <= py <= SCREEN_LIMIT,
    ensures
        bary_weights_match(
            v0x as int,
            v0y as int,
            v1x as int,
            v1y as int,
            v2x as int,
            v2y as int,
            px as int,
            py as int,
            r,
        ),
{
    let a = Vertex3 { x: v2x - v0x, y: v1x - v0x, z: v0x - px };
    let b = Vertex3 { x: v2y - v0y, y: v1y - v0y, z: v0y - py };
    let u = Vertex3::cross(a, b);
    if u.z == 0 {
        return Vertex3 { x: -SCALE, y: SCALE, z: SCALE };
    }
    proof {
        lemma_abs_product(a.y as int, b.z as int, 0x20_0000);
        lemma_abs_product(a.z as int, b.y as int, 0x20_0000);
        lemma_abs_product(a.z as int, b.x as int, 0x20_0000);
        lemma_abs_product(a.x as int, b.z as int, 0x20_0000);
        lemma_abs_product(a.x as int, b.y as int, 0x20_0000);
        lemma_abs_product(a.y as int, b.x as int, 0x20_0000);
        lemma_bounded_product((u.x + u.y) as int, 0x10_0000_0000_0000, SCALE as int);
        lemma_bounded_product(u.y as int, 0x8_0000_0000_0000, SCALE as int);
        lemma_bounded_product(u.x as int, 0x8_0000_0000_0000, SCALE as int);
        lemma_tdiv_self_bound((u.x + u.y) * SCALE, u.z as int);
        lemma_tdiv_self_bound(u.y * SCALE as int, u.z as int);
        lemma_tdiv_self_bound(u.x * SCALE as int, u.z as int);
    }
    Vertex3 {
        x: SCALE - div_trunc((u.x + u.y) * SCALE, u.z),
        y: div_trunc(u.y * SCALE, u.z),
        z: div_trunc(u.x * SCALE, u.z),
    }
}

/// Law: the cross product is antisymmetric: every component of
/// `cross(u, v)` is the negation of the same component of `cross(v, u)`.
pub proof fn lemma_cross_antisymmetric(u: Vertex3<i64>, v: Vertex3<i64>)
    ensures
        cross_x(u, v) == -cross_x(v, u),
        cross_y(u, v) == -cross_y(v, u),
        cross_z(u, v) == -cross_z(v, u),
{
    lemma_mul_is_commutative(u.y as int, v.z as int);
    lemma_mul_is_commutative(u.z as int, v.y as int);
    lemma_mul_is_commutative(u.z as int, v.x as int);
    lemma_mul_is_commutative(u.x as int, v.z as int);
    lemma_mul_is_commutative(u.x as int, v.y as int);
    lemma_mul_is_commutative(u.y as int, v.x as int);
}

/// Law: the dot product is symmetric: `dot(u, v) == dot(v, u)`, for
/// 3-vectors and for 2-vectors.
pub proof fn lemma_dot_symmetric(u: Vertex3<i64>, v: Vertex3<i64>, s: Vertex2<i64>, t: Vertex2<i64>)
    ensures
        dot3(u, v) == dot3(v, u),
        dot2(s, t) == dot2(t, s),
{
    lemma_mul_is_commutative(u.x as int, v.x as int);
    lemma_mul_is_commutative(u.y as int, v.y as int);
    lemma_mul_is_commutative(u.z as int, v.z as int);
    lemma_mul_is_commutative(s.x as int, t.x as int);
    lemma_mul_is_commutative(s.y as int, t.y as int);
}

/// Law: the identity matrix is a left and a right unit of the
/// fixed-point matrix product: `identity() * M == M == M * identity()`
/// for every `M` whose entries the product admits.
proof fn lemma_identity_entry(m: Matrix4, i: int, j: int)
    requires
        0 <= i < 4,
        0 <= j < 4,
    ensures
        mat_mul_entry(mat_identity_spec(), m, i, j) == m.m[i][j],
        mat_mul_entry(m, mat_identity_spec(), i, j) == m.m[i][j],
{
    broadcast use vstd::array::group_array_axioms;

    let idm = mat_identity_spec();
    lemma_tdiv_exact(m.m[i][j] as int, SCALE as int);
    lemma_mul_is_commutative(SCALE as int, m.m[i][j] as int);
    if i == 0 {
        assert(idm.m[0][0] == SCALE);
        assert(idm.m[0][1] == 0);
        assert(idm.m[0][2] == 0);
        assert(idm.m[0][3] == 0);
        assert(mat_row_col(idm, m, 0, j) == SCALE * m.m[0][j]);
    }
    if i == 1 {
        assert(idm.m[1][0] == 0);
        assert(idm.m[1][1] == SCALE);
        assert(idm.m[1][2] == 0);
        assert(idm.m[1][3] == 0);
        assert(mat_row_col(idm, m, 1, j) == SCALE * m.m[1][j]);
    }
    if i == 2 {
        assert(idm.m[2][0] == 0);
        assert(idm.m[2][1] == 0);
        assert(idm.m[2][2] == SCALE);
        assert(idm.m[2][3] == 0);
        assert(mat_row_col(idm, m, 2, j) == SCALE * m.m[2][j]);
    }
    if i == 3 {
        assert(idm.m[3][0] == 0);
        assert(idm.m[3][1] == 0);
        assert(idm.m[3][2] == 0);
        assert(idm.m[3][3] == SCALE);
        assert(mat_row_col(idm, m, 3, j) == SCALE * m.m[3][j]);
    }
    if j == 0 {
        assert(idm.m[0][0] == SCALE);
        assert(idm.m[1][0] == 0);
        assert(idm.m[2][0] == 0);
        assert(idm.m[3][0] == 0);
        assert(mat_row_col(m, idm, i, 0) == m.m[i][0] * SCALE);
    }
    if j == 1 {
        assert(idm.m[0][1] == 0);
        assert(idm.m[1][1] == SCALE);
        assert(idm.m[2][1] == 0);
        assert(idm.m[3][1] == 0);
        assert(mat_row_col(m, idm, i, 1) == m.m[i][1] * SCALE);
    }
    if j == 2 {
        assert(idm.m[0][2] == 0);
        assert(idm.m[1][2] == 0);
        assert(idm.m[2][2] == SCALE);
        assert(idm.m[3][2] == 0);
        assert(mat_row_col(m, idm, i, 2) == m.m[i][2] * SCALE);
    }
    if j == 3 {
        assert(idm.m[0][3] == 0);
        assert(idm.m[1][3] == 0);
        assert(idm.m[2][3] == 0);
        assert(idm.m[3][3] == SCALE);
        assert(mat_row_col(m, idm, i, 3) == m.m[i][3] * SCALE);
    }
}

pub proof fn lemma_identity_mul(m: Matrix4)
    requires
        mat_bounded(m),
    ensures
        mat_mul_spec(mat_identity_spec(), m) == m,
        mat_mul_spec(m, mat_identity_spec()) == m,
{
    broadcast use vstd::array::group_array_axioms;

    let idm = mat_identity_spec();
    lemma_identity_entry(m, 0, 0);
    lemma_identity_entry(m, 0, 1);
    lemma_identity_entry(m, 0, 2);
    lemma_identity_entry(m, 0, 3);
    lemma_identity_entry(m, 1, 0);
    lemma_identity_entry(m, 1, 1);
    lemma_identity_entry(m, 1, 2);
    lemma_identity_entry(m, 1, 3);
    lemma_identity_entry(m, 2, 0);
    lemma_identity_entry(m, 2, 1);
    lemma_identity_entry(m, 2, 2);
    lemma_identity_entry(m, 2, 3);
    lemma_identity_entry(m, 3, 0);
    lemma_identity_entry(m, 3, 1);
    lemma_identity_entry(m, 3, 2);
    lemma_identity_entry(m, 3, 3);
    let l = mat_mul_spec(idm, m);
    let r = mat_mul_spec(m, idm);
    assert(l.m[0] =~= m.m[0]);
    assert(l.m[1] =~= m.m[1]);
    assert(l.m[2] =~= m.m[2]);
    assert(l.m[3] =~= m.m[3]);
    assert(l.m =~= m.m);
    assert(r.m[0] =~= m.m[0]);
    assert(r.m[1] =~= m.m[1]);
    assert(r.m[2] =~= m.m[2]);
    assert(r.m[3] =~= m.m[3]);
    assert(r.m =~= m.m);
}

/// Law: the barycentric weights reconstruct the queried point, exactly,
/// as rational numbers over the common denominator: for a non-degenerate
/// triangle the numerators `(den - u - v, v, u)` of the weights of
/// `(v0, v1, v2)` sum to `den`, and the weighted sums of the vertex
/// coordinates equal `den` times the point's coordinates. Dividing by
/// `den`, any point written as an affine combination of the vertices
/// gets exactly its own weights back.
pub proof fn lemma_barycentric_reconstructs(
    v0x: int,
    v0y: int,
    v1x: int,
    v1y: int,
    v2x: int,
    v2y: int,
    px: int,
    py: int,
)
    ensures
        ({
            let u = bary_u(v0x, v0y, v1x, v1y, v2x, v2y, px, py);
            let v = bary_v(v0x, v0y, v1x, v1y, v2x, v2y, px, py);
            let den = bary_den(v0x, v0y, v1x, v1y, v2x, v2y);
            &&& (den - u - v) + v + u == den
            &&& (den - u - v) * v0x + v * v1x + u * v2x == den * px
            &&& (den - u - v) * v0y + v * v1y + u * v2y == den * py
        }),
{
    let u = bary_u(v0x, v0y, v1x, v1y, v2x, v2y, px, py);
    let v = bary_v(v0x, v0y, v1x, v1y, v2x, v2y, px, py);
    let den = bary_den(v0x, v0y, v1x, v1y, v2x, v2y);
    let a = v1x - v0x;
    let b = v0y - py;
    let c = v0x - px;
    let d = v1y - v0y;
    let e = v2y - v0y;
    let f = v2x - v0x;
    assert(u * f + v * a == -(c * den)) by (nonlinear_arith)
        requires
            u == a * b - c * d,
            v == c * e - f * b,
            den == f * d - a * e,
    ;
    assert(u * e + v * d == -(b * den)) by (nonlinear_arith)
        requires
            u == a * b - c * d,
            v == c * e - f * b,
            den == f * d - a * e,
    ;
    assert((den - u - v) * v0x + v * v1x + u * v2x == den * v0x + v * a + u * f) by (nonlinear_arith)
        requires
            v1x == v0x + a,
            v2x == v0x + f,
    ;
    assert((den - u - v) * v0y + v * v1y + u * v2y == den * v0y + v * d + u * e) by (nonlinear_arith)
        requires
            v1y == v0y + d,
            v2y == v0y + e,
    ;
    assert(den * v0x - c * den == den * px) by (nonlinear_arith)
        requires
            c == v0x - px,
    ;
    assert(den * v0y - b * den == den * py) by (nonlinear_arith)
        requires
            b == v0y - py,
    ;
    lemma_mul_is_commutative(u as int, f);
    lemma_mul_is_commutative(v as int, a);
    lemma_mul_is_commutative(u as int, e);
    lemma_mul_is_commutative(v as int, d);
}

/// Cross-multiplying two weighted decompositions of the same point
/// cancels it.
proof fn lemma_cross_multiplied_difference(
    a0: int,
    a1: int,
    a2: int,
    dd: int,
    w0: int,
    w1: int,
    w2: int,
    den: int,
    x0: int,
    x1: int,
    x2: int,
    p: int,
)
    requires
        a0 * x0 + a1 * x1 + a2 * x2 == dd * p,
        w0 * x0 + w1 * x1 + w2 * x2 == den * p,
    ensures
        (a0 * den - w0 * dd) * x0 + (a1 * den - w1 * dd) * x1 + (a2 * den - w2 * dd) * x2 == 0,
{
    assert((a0 * den) * x0 == den * (a0 * x0)) by (nonlinear_arith);
    assert((a1 * den) * x1 == den * (a1 * x1)) by (nonlinear_arith);
    assert((a2 * den) * x2 == den * (a2 * x2)) by (nonlinear_arith);
    assert((w0 * dd) * x0 == dd * (w0 * x0)) by (nonlinear_arith);
    assert((w1 * dd) * x1 == dd * (w1 * x1)) by (nonlinear_arith);
    assert((w2 * dd) * x2 == dd * (w2 * x2)) by (nonlinear_arith);
    assert(den * (a0 * x0) + den * (a1 * x1) + den * (a2 * x2) == den * (a0 * x0 + a1 * x1 + a2
        * x2)) by (nonlinear_arith);
    assert(dd * (w0 * x0) + dd * (w1 * x1) + dd * (w2 * x2) == dd * (w0 * x0 + w1 * x1 + w2 * x2))
        by (nonlinear_arith);
    assert(den * (dd * p) == dd * (den * p)) by (nonlinear_arith);
    assert((a0 * den - w0 * dd) * x0 == (a0 * den) * x0 - (w0 * dd) * x0) by (nonlinear_arith);
    assert((a1 * den - w1 * dd) * x1 == (a1 * den) * x1 - (w1 * dd) * x1) by (nonlinear_arith);
    assert((a2 * den - w2 * dd) * x2 == (a2 * den) * x2 - (w2 * dd) * x2) by (nonlinear_arith);
}

/// A vector in the kernel of a 2x2 system with nonzero determinant is
/// zero.
proof fn lemma_two_by_two_kernel(b1: int, b2: int, e1x: int, e1y: int, e2x: int, e2y: int, den: int)
    requires
        b1 * e1x + b2 * e2x == 0,
        b1 * e1y + b2 * e2y == 0,
        den == e2x * e1y - e1x * e2y,
        den != 0,
    ensures
        b1 == 0,
        b2 == 0,
{
    assert(b1 * den == 0) by (nonlinear_arith)
        requires
            b1 * e1x + b2 * e2x == 0,
            b1 * e1y + b2 * e2y == 0,
            den == e2x * e1y - e1x * e2y,
    ;
    assert(b2 * den == 0) by (nonlinear_arith)
        requires
            b1 * e1x + b2 * e2x == 0,
            b1 * e1y + b2 * e2y == 0,
            den == e2x * e1y - e1x * e2y,
    ;
    assert(b1 == 0 && b2 == 0) by (nonlinear_arith)
        requires
            b1 * den == 0,
            b2 * den == 0,
            den != 0,
    ;
}

/// Law: the barycentric round trip: the weights of a point are unique.
/// If `p` is the affine combination of the triangle's vertices with
/// rational weights `a0/dd, a1/dd, a2/dd` (for `(v0, v1, v2)` in that
/// order), then the computed weight numerators over the triangle's own
/// denominator are those same rationals: `(den-u-v)/den == a0/dd`,
/// `v/den == a1/dd` and `u/den == a2/dd`, written without division.
pub proof fn lemma_barycentric_round_trip(
    v0x: int,
    v0y: int,
    v1x: int,
    v1y: int,
    v2x: int,
    v2y: int,
    px: int,
    py: int,
    a0: int,
    a1: int,
    a2: int,
    dd: int,
)
    requires
        dd != 0,
        a0 + a1 + a2 == dd,
        a0 * v0x + a1 * v1x + a2 * v2x == dd * px,
        a0 * v0y + a1 * v1y + a2 * v2y == dd * py,
        bary_den(v0x, v0y, v1x, v1y, v2x, v2y) != 0,
    ensures
        ({
            let u = bary_u(v0x, v0y, v1x, v1y, v2x, v2y, px, py);
            let v = bary_v(v0x, v0y, v1x, v1y, v2x, v2y, px, py);
            let den = bary_den(v0x, v0y, v1x, v1y, v2x, v2y);
            &&& a0 * den == (den - u - v) * dd
            &&& a1 * den == v * dd
            &&& a2 * den == u * dd
        }),
{
    let u = bary_u(v0x, v0y, v1x, v1y, v2x, v2y, px, py);
    let v = bary_v(v0x, v0y, v1x, v1y, v2x, v2y, px, py);
    let den = bary_den(v0x, v0y, v1x, v1y, v2x, v2y);
    let w0 = den - u - v;
    lemma_barycentric_reconstructs(v0x, v0y, v1x, v1y, v2x, v2y, px, py);
    let b0 = a0 * den - w0 * dd;
    let b1 = a1 * den - v * dd;
    let b2 = a2 * den - u * dd;
    assert(b0 + b1 + b2 == 0) by (nonlinear_arith)
        requires
            a0 + a1 + a2 == dd,
            w0 + v + u == den,
            b0 == a0 * den - w0 * dd,
            b1 == a1 * den - v * dd,
            b2 == a2 * den - u * dd,
    ;
    lemma_cross_multiplied_difference(a0, a1, a2, dd, w0, v, u, den, v0x, v1x, v2x, px);
    lemma_cross_multiplied_difference(a0, a1, a2, dd, w0, v, u, den, v0y, v1y, v2y, py);
    assert(b0 * v0x + b1 * v1x + b2 * v2x == 0);
    assert(b0 * v0y + b1 * v1y + b2 * v2y == 0);
    let e1x = v1x - v0x;
    let e1y = v1y - v0y;
    let e2x = v2x - v0x;
    let e2y = v2y - v0y;
    assert(b1 * e1x + b2 * e2x == 0) by (nonlinear_arith)
        requires
            b0 + b1 + b2 == 0,
            b0 * v0x + b1 * v1x + b2 * v2x == 0,
            e1x == v1x - v0x,
            e2x == v2x - v0x,
    ;
    assert(b1 * e1y + b2 * e2y == 0) by (nonlinear_arith)
        requires
            b0 + b1 + b2 == 0,
            b0 * v0y + b1 * v1y + b2 * v2y == 0,
            e1y == v1y - v0y,
            e2y == v2y - v0y,
    ;
    lemma_two_by_two_kernel(b1, b2, e1x, e1y, e2x, e2y, den);
}

/// Every nonnegative integer has an integer square root.
pub proof fn lemma_sqrt_exists(m: nat)
    ensures
        exists|r: int| is_sqrt(m as int, r),
    decreases m,
{
    if m == 0 {
        assert(is_sqrt(0, 0)) by (nonlinear_arith);
    } else {
        lemma_sqrt_exists((m - 1) as nat);
        let r = choose|r: int| #[trigger] is_sqrt(m - 1, r);
        if (r + 1) * (r + 1) <= m {
            assert(is_sqrt(m as int, r + 1)) by (nonlinear_arith)
                requires
                    0 <= r,
                    (r + 1) * (r + 1) <= m,
                    (r + 1) * (r + 1) > m - 1,
            ;
        } else {
            assert(is_sqrt(m as int, r));
        }
    }
}

/// The norm of a nonzero vector is its actual integer square root.
pub proof fn lemma_norm_spec_is_sqrt(v: Vertex3<i64>)
    ensures
        is_sqrt(norm_sq(v), norm_spec(v)),
{
    assert(norm_sq(v) >= 0) by (nonlinear_arith);
    lemma_sqrt_exists(norm_sq(v) as nat);
}

/// Truncated division leaves less than one divisor of remainder:
/// `b * |a / b| <= |a| < b * (|a / b| + 1)` for positive `b`.
proof fn lemma_tdiv_err(a: int, b: int)
    requires
        b >= 1,
    ensures
        b * iabs(tdiv(a, b)) <= iabs(a),
        iabs(a) < b * (iabs(tdiv(a, b)) + 1),
{
    lemma_fundamental_div_mod(iabs(a), b);
    lemma_mod_division_less_than_divisor(iabs(a), b);
    lemma_div_pos_is_pos(iabs(a), b);
    lemma_mul_is_commutative(b, iabs(a) / b);
    lemma_mul_is_distributive_add(b, iabs(a) / b, 1);
}

/// Law: normalizing scales a vector to unit length, within fixed-point
/// tolerance: for any vector of norm at least one, the norm of
/// `normalize(v)` lies within a few parts in `SCALE` of the fixed-point
/// one. (Vectors shorter than one unit carry too little precision for
/// the truncated division to land near unit length.)
pub proof fn lemma_normalize_unit_norm(v: Vertex3<i64>)
    requires
        v3_bounded(v, NORM_LIMIT as int),
        norm_spec(v) >= SCALE,
    ensures
        SCALE - 4 <= norm_spec(v3_normalize_spec(v)) <= SCALE,
{
    let s = SCALE as int;
    let n = norm_spec(v);
    let nsq = norm_sq(v);
    lemma_norm_spec_is_sqrt(v);
    lemma_component_le_norm(v, n);
    let cx = v.x as int;
    let cy = v.y as int;
    let cz = v.z as int;
    let tx = tdiv(cx * s, n);
    let ty = tdiv(cy * s, n);
    let tz = tdiv(cz * s, n);
    lemma_norm_weight(cx, n, s);
    lemma_norm_weight(cy, n, s);
    lemma_norm_weight(cz, n, s);
    let r = v3_normalize_spec(v);
    assert(r.x == tx && r.y == ty && r.z == tz);
    let rsq = norm_sq(r);
    assert(rsq == tx * tx + ty * ty + tz * tz);
    let s2 = s * s;
    let n2 = n * n;
    // upper bound: n^2 * rsq <= s^2 * nsq <= s^2 * (n^2 + 2n)
    lemma_tdiv_err(cx * s, n);
    lemma_tdiv_err(cy * s, n);
    lemma_tdiv_err(cz * s, n);
    assert(iabs(cx * s) == iabs(cx) * s && iabs(cy * s) == iabs(cy) * s && iabs(cz * s) == iabs(
        cz,
    ) * s) by (nonlinear_arith)
        requires
            s >= 1,
    ;
    assert(n2 * (tx * tx) <= s2 * (cx * cx)) by (nonlinear_arith)
        requires
            n >= 1,
            s >= 1,
            n2 == n * n,
            s2 == s * s,
            n * iabs(tx) <= iabs(cx) * s,
    ;
    assert(n2 * (ty * ty) <= s2 * (cy * cy)) by (nonlinear_arith)
        requires
            n >= 1,
            s >= 1,
            n2 == n * n,
            s2 == s * s,
            n * iabs(ty) <= iabs(cy) * s,
    ;
    assert(n2 * (tz * tz) <= s2 * (cz * cz)) by (nonlinear_arith)
        requires
            n >= 1,
            s >= 1,
            n2 == n * n,
            s2 == s * s,
            n * iabs(tz) <= iabs(cz) * s,
    ;
    assert(n2 * rsq <= s2 * nsq) by (nonlinear_arith)
        requires
            rsq == tx * tx + ty * ty + tz * tz,
            nsq == cx * cx + cy * cy + cz * cz,
            n2 * (tx * tx) <= s2 * (cx * cx),
            n2 * (ty * ty) <= s2 * (cy * cy),
            n2 * (tz * tz) <= s2 * (cz * cz),
    ;
    assert(nsq <= n2 + 2 * n) by (nonlinear_arith)
        requires
            n2 == n * n,
            (n + 1) * (n + 1) > nsq,
    ;
    assert(rsq <= s2 + 2 * s) by (nonlinear_arith)
        requires
            n >= s,
            s >= 2,
            n2 == n * n,
            s2 == s * s,
            n2 * rsq <= s2 * nsq,
            nsq <= n2 + 2 * n,
    ;
    // lower bound: s^2 * nsq < n^2 * (rsq + 2 * (|tx| + |ty| + |tz|) + 3)
    let tsum = iabs(tx) + iabs(ty) + iabs(tz);
    assert(s2 * (cx * cx) < n2 * (tx * tx + 2 * iabs(tx) + 1)) by (nonlinear_arith)
        requires
            n >= 1,
            s >= 1,
            n2 == n * n,
            s2 == s * s,
            iabs(cx) * s < n * (iabs(tx) + 1),
            iabs(cx * s) == iabs(cx) * s,
    ;
    assert(s2 * (cy * cy) < n2 * (ty * ty + 2 * iabs(ty) + 1)) by (nonlinear_arith)
        requires
            n >= 1,
            s >= 1,
            n2 == n * n,
            s2 == s * s,
            iabs(cy) * s < n * (iabs(ty) + 1),
            iabs(cy * s) == iabs(cy) * s,
    ;
    assert(s2 * (cz * cz) < n2 * (tz * tz + 2 * iabs(tz) + 1)) by (nonlinear_arith)
        requires
            n >= 1,
            s >= 1,
            n2 == n * n,
            s2 == s * s,
            iabs(cz) * s < n * (iabs(tz) + 1),
            iabs(cz * s) == iabs(cz) * s,
    ;
    assert(s2 * nsq < n2 * (rsq + 2 * tsum + 3)) by (nonlinear_arith)
        requires
            rsq == tx * tx + ty * ty + tz * tz,
            nsq == cx * cx + cy * cy + cz * cz,
            tsum == iabs(tx) + iabs(ty) + iabs(tz),
            s2 * (cx * cx) < n2 * (tx * tx + 2 * iabs(tx) + 1),
            s2 * (cy * cy) < n2 * (ty * ty + 2 * iabs(ty) + 1),
            s2 * (cz * cz) < n2 * (tz * tz + 2 * iabs(tz) + 1),
    ;
    assert(s2 * n2 <= s2 * nsq) by (nonlinear_arith)
        requires
            s2 >= 0,
            n2 <= nsq,
    ;
    assert(n2 >= 1) by (nonlinear_arith)
        requires
            n >= 1,
            n2 == n * n,
    ;
    assert(rsq > s2 - 2 * tsum - 3) by (nonlinear_arith)
        requires
            n2 >= 1,
            s2 * n2 < n2 * (rsq + 2 * tsum + 3),
    ;
    assert(tsum <= 3 * s);
    assert(rsq >= (s - 4) * (s - 4)) by (nonlinear_arith)
        requires
            s2 == s * s,
            rsq > s2 - 2 * tsum - 3,
            tsum <= 3 * s,
            s == 65536,
    ;
    // conclude from the integer square root of rsq
    lemma_norm_spec_is_sqrt(r);
    let m = norm_spec(r);
    assert(m <= s) by (nonlinear_arith)
        requires
            m >= 0,
            m * m <= rsq,
            rsq <= s * s + 2 * s,
            s >= 1,
    ;
    assert(m >= s - 4) by (nonlinear_arith)
        requires
            m >= 0,
            (m + 1) * (m + 1) > rsq,
            rsq >= (s - 4) * (s - 4),
            s >= 5,
    ;
}

/// A component no longer than the norm normalizes to a weight within
/// the fixed-point unit.
proof fn lemma_norm_weight(c: int, n: int, s: int)
    requires
        n >= 1,
        iabs(c) <= n,
        s >= 0,
    ensures
        -s <= tdiv(c * s, n) <= s,
{
    assert(iabs(c * s) == iabs(c) * s) by (nonlinear_arith)
        requires
            s >= 0,
    ;
    lemma_mul_inequality(iabs(c), n, s);
    lemma_tdiv_magnitude(c * s, n, s);
}

/// Two integer square roots of the same number are equal.
pub proof fn lemma_sqrt_unique(n: int, r1: int, r2: int)
    requires
        is_sqrt(n, r1),
        is_sqrt(n, r2),
    ensures
        r1 == r2,
{
    if r1 < r2 {
        assert((r1 + 1) * (r1 + 1) <= r2 * r2) by (nonlinear_arith)
            requires
                0 <= r1,
                r1 + 1 <= r2,
        ;
    }
    if r2 < r1 {
        assert((r2 + 1) * (r2 + 1) <= r1 * r1) by (nonlinear_arith)
            requires
                0 <= r2,
                r2 + 1 <= r1,
        ;
    }
}

/// Every component of `v` is bounded in magnitude by its norm.
pub proof fn lemma_component_le_norm(v: Vertex3<i64>, n: int)
    requires
        is_sqrt(norm_sq(v), n),
    ensures
        iabs(v.x as int) <= n,
        iabs(v.y as int) <= n,
        iabs(v.z as int) <= n,
{
    assert(v.x * v.x >= 0 && v.y * v.y >= 0 && v.z * v.z >= 0) by (nonlinear_arith);
    assert(iabs(v.x as int) <= n) by (nonlinear_arith)
        requires
            0 <= n,
            (n + 1) * (n + 1) > v.x * v.x,
    ;
    assert(iabs(v.y as int) <= n) by (nonlinear_arith)
        requires
            0 <= n,
            (n + 1) * (n + 1) > v.y * v.y,
    ;
    assert(iabs(v.z as int) <= n) by (nonlinear_arith)
        requires
            0 <= n,
            (n + 1) * (n + 1) > v.z * v.z,
    ;
}

/// Truncated division by a nonzero divisor bounds the quotient's
/// magnitude by the dividend's.
pub proof fn lemma_tdiv_self_bound(a: int, b: int)
    requires
        b != 0,
    ensures
        -iabs(a) <= tdiv(a, b) <= iabs(a),
{
    lemma_div_pos_is_pos(iabs(a), iabs(b));
    lemma_div_nonincreasing(iabs(a), iabs(b));
}

/// `b >= 1` and `|a| <= b * c` give `|a / b| <= c` (truncated division).
pub proof fn lemma_tdiv_magnitude(a: int, b: int, c: int)
    requires
        b >= 1,
        0 <= c,
        iabs(a) <= b * c,
    ensures
        -c <= tdiv(a, b) <= c,
{
    lemma_div_is_ordered(iabs(a), b * c, b);
    lemma_div_by_multiple(c, b);
    lemma_mul_is_commutative(b, c);
    lemma_div_pos_is_pos(iabs(a), b);
}

/// `|a| <= ea` and `|b| <= eb` give `|a * b| <= ea * eb`.
pub proof fn lemma_abs_product2(a: int, ea: int, b: int, eb: int)
    requires
        -ea <= a <= ea,
        -eb <= b <= eb,
        0 <= ea,
        0 <= eb,
    ensures
        -(ea * eb) <= a * b <= ea * eb,
{
    assert(-(ea * eb) <= a * b <= ea * eb) by (nonlinear_arith)
        requires
            -ea <= a <= ea,
            -eb <= b <= eb,
            0 <= ea,
            0 <= eb,
    ;
}

/// `|a| <= e` and `|b| <= e` give `|a * b| <= e * e`.
pub proof fn lemma_abs_product(a: int, b: int, e: int)
    requires
        -e <= a <= e,
        -e <= b <= e,
        0 <= e,
    ensures
        -(e * e) <= a * b <= e * e,
{
    assert(-(e * e) <= a * b <= e * e) by (nonlinear_arith)
        requires
            -e <= a <= e,
            -e <= b <= e,
            0 <= e,
    ;
}

/// Bound on the components fed to `norm` and `normalize` under which the
/// sum of squares stays below `2^90` and the scaled components below
/// `2^61`.
pub const NORM_LIMIT: i64 = 0x1000_0000_0000;

/// Bound on the screen coordinates fed to `barycentric` under which all
/// its products stay well inside `i64`.
pub const SCREEN_LIMIT: i64 = 0x10_0000;

/// Dot product of 3-vectors, exact.
pub open spec fn dot3(u: Vertex3<i64>, v: Vertex3<i64>) -> int {
    u.x * v.x + u.y * v.y + u.z * v.z
}

/// Dot product of 2-vectors, exact.
pub open spec fn dot2(u: Vertex2<i64>, v: Vertex2<i64>) -> int {
    u.x * v.x + u.y * v.y
}

/// Squared Euclidean length.
pub open spec fn norm_sq(v: Vertex3<i64>) -> int {
    dot3(v, v)
}

/// The integer square root of the squared length: for a fixed-point
/// vector this is the fixed-point Euclidean norm.
pub open spec fn norm_spec(v: Vertex3<i64>) -> int {
    choose|r: int| is_sqrt(norm_sq(v), r)
}

pub open spec fn cross_x(u: Vertex3<i64>, v: Vertex3<i64>) -> int {
    u.y * v.z - u.z * v.y
}

pub open spec fn cross_y(u: Vertex3<i64>, v: Vertex3<i64>) -> int {
    u.z * v.x - u.x * v.z
}

pub open spec fn cross_z(u: Vertex3<i64>, v: Vertex3<i64>) -> int {
    u.x * v.y - u.y * v.x
}

/// The component-wise difference, as a value.
pub open spec fn v3_sub_spec(a: Vertex3<i64>, b: Vertex3<i64>) -> Vertex3<i64> {
    Vertex3 { x: (a.x - b.x) as i64, y: (a.y - b.y) as i64, z: (a.z - b.z) as i64 }
}

/// The cross product, as a value.
pub open spec fn cross_spec(u: Vertex3<i64>, v: Vertex3<i64>) -> Vertex3<i64> {
    Vertex3 { x: cross_x(u, v) as i64, y: cross_y(u, v) as i64, z: cross_z(u, v) as i64 }
}

/// The normalized vector, as a value: each component scaled by `SCALE`
/// and divided by the norm, truncated toward zero.
pub open spec fn v3_normalize_spec(v: Vertex3<i64>) -> Vertex3<i64> {
    Vertex3 {
        x: tdiv(v.x * SCALE, norm_spec(v)) as i64,
        y: tdiv(v.y * SCALE, norm_spec(v)) as i64,
        z: tdiv(v.z * SCALE, norm_spec(v)) as i64,
    }
}

/// All components of `v` are bounded by `b` in magnitude.
pub open spec fn v3_bounded(v: Vertex3<i64>, b: int) -> bool {
    -b <= v.x <= b && -b <= v.y <= b && -b <= v.z <= b
}

impl core::ops::Add<Vertex2<i64>> for Vertex2<i64> {
    type Output = Vertex2<i64>;

    /// Component-wise sum.
    fn add(self, other: Vertex2<i64>) -> (r: Vertex2<i64>) {
        Vertex2 { x: self.x + other.x, y: self.y + other.y }
    }
}

impl vstd::std_specs::ops::AddSpecImpl<Vertex2<i64>> for Vertex2<i64> {
    open spec fn obeys_add_spec() -> bool {
        true
    }

    open spec fn add_req(self, rhs: Vertex2<i64>) -> bool {
        &&& i64::MIN <= self.x + rhs.x <= i64::MAX
        &&& i64::MIN <= self.y + rhs.y <= i64::MAX
    }

    open spec fn add_spec(self, rhs: Vertex2<i64>) -> Vertex2<i64> {
        Vertex2 { x: (self.x + rhs.x) as i64, y: (self.y + rhs.y) as i64 }
    }
}

impl core::ops::Add<Vertex3<i64>> for Vertex3<i64> {
    type Output = Vertex3<i64>;

    /// Component-wise sum.
    fn add(self, other: Vertex3<i64>) -> (r: Vertex3<i64>) {
        Vertex3 { x: self.x + other.x, y: self.y + other.y, z: self.z + other.z }
    }
}

impl vstd::std_specs::ops::AddSpecImpl<Vertex3<i64>> for Vertex3<i64> {
    open spec fn obeys_add_spec() -> bool {
        true
    }

    open spec fn add_req(self, rhs: Vertex3<i64>) -> bool {
        &&& i64::MIN <= self.x + rhs.x <= i64::MAX
        &&& i64::MIN <= self.y + rhs.y <= i64::MAX
        &&& i64::MIN <= self.z + rhs.z <= i64::MAX
    }

    open spec fn add_spec(self, rhs: Vertex3<i64>) -> Vertex3<i64> {
        Vertex3 {
            x: (self.x + rhs.x) as i64,
            y: (self.y + rhs.y) as i64,
            z: (self.z + rhs.z) as i64,
        }
    }
}

impl core::ops::Sub<Vertex2<i64>> for Vertex2<i64> {
    type Output = Vertex2<i64>;

    /// Component-wise difference.
    fn sub(self, other: Vertex2<i64>) -> (r: Vertex2<i64>) {
        Vertex2 { x: self.x - other.x, y: self.y - other.y }
    }
}

impl vstd::std_specs::ops::SubSpecImpl<Vertex2<i64>> for Vertex2<i64> {
    open spec fn obeys_sub_spec() -> bool {
        true
    }

    open spec fn sub_req(self, rhs: Vertex2<i64>) -> bool {
        &&& i64::MIN <= self.x - rhs.x <= i64::MAX
        &&& i64::MIN <= self.y - rhs.y <= i64::MAX
    }

    open spec fn sub_spec(self, rhs: Vertex2<i64>) -> Vertex2<i64> {
        Vertex2 { x: (self.x - rhs.x) as i64, y: (self.y - rhs.y) as i64 }
    }
}

impl core::ops::Sub<Vertex3<i64>> for Vertex3<i64> {
    type Output = Vertex3<i64>;

    /// Component-wise difference.
    fn sub(self, other: Vertex3<i64>) -> (r: Vertex3<i64>) {
        Vertex3 { x: self.x - other.x, y: self.y - other.y, z: self.z - other.z }
    }
}

impl vstd::std_specs::ops::SubSpecImpl<Vertex3<i64>> for Vertex3<i64> {
    open spec fn obeys_sub_spec() -> bool {
        true
    }

    open spec fn sub_req(self, rhs: Vertex3<i64>) -> bool {
        &&& i64::MIN <= self.x - rhs.x <= i64::MAX
        &&& i64::MIN <= self.y - rhs.y <= i64::MAX
        &&& i64::MIN <= self.z - rhs.z <= i64::MAX
    }

    open spec fn sub_spec(self, rhs: Vertex3<i64>) -> Vertex3<i64> {
        Vertex3 {
            x: (self.x - rhs.x) as i64,
            y: (self.y - rhs.y) as i64,
            z: (self.z - rhs.z) as i64,
        }
    }
}

impl core::ops::Mul<Vertex2<i64>> for Scalar {
    type Output = Vertex2<i64>;

    /// Scales both components by the fixed-point factor.
    fn mul(self, rhs: Vertex2<i64>) -> (r: Vertex2<i64>) {
        Vertex2 { x: fx_mul(self.value, rhs.x), y: fx_mul(self.value, rhs.y) }
    }
}

impl vstd::std_specs::ops::MulSpecImpl<Vertex2<i64>> for Scalar {
    open spec fn obeys_mul_spec() -> bool {
        true
    }

    open spec fn mul_req(self, rhs: Vertex2<i64>) -> bool {
        &&& i64::MIN <= self.value * rhs.x <= i64::MAX
        &&& i64::MIN <= self.value * rhs.y <= i64::MAX
    }

    open spec fn mul_spec(self, rhs: Vertex2<i64>) -> Vertex2<i64> {
        Vertex2 {
            x: tdiv(self.value * rhs.x, SCALE as int) as i64,
            y: tdiv(self.value * rhs.y, SCALE as int) as i64,
        }
    }
}

impl core::ops::Mul<Vertex3<i64>> for Scalar {
    type Output = Vertex3<i64>;

    /// Scales every component by the fixed-point factor.
    fn mul(self, rhs: Vertex3<i64>) -> (r: Vertex3<i64>) {
        Vertex3 {
            x: fx_mul(self.value, rhs.x),
            y: fx_mul(self.value, rhs.y),
            z: fx_mul(self.value, rhs.z),
        }
    }
}

impl vstd::std_specs::ops::MulSpecImpl<Vertex3<i64>> for Scalar {
    open spec fn obeys_mul_spec() -> bool {
        true
    }

    open spec fn mul_req(self, rhs: Vertex3<i64>) -> bool {
        &&& i64::MIN <= self.value * rhs.x <= i64::MAX
        &&& i64::MIN <= self.value * rhs.y <= i64::MAX
        &&& i64::MIN <= self.value * rhs.z <= i64::MAX
    }

    open spec fn mul_spec(self, rhs: Vertex3<i64>) -> Vertex3<i64> {
        Vertex3 {
            x: tdiv(self.value * rhs.x, SCALE as int) as i64,
            y: tdiv(self.value * rhs.y, SCALE as int) as i64,
            z: tdiv(self.value * rhs.z, SCALE as int) as i64,
        }
    }
}

impl core::ops::Mul<Vertex3<i64>> for Vertex3<i64> {
    type Output = i64;

    /// The exact dot product.
    fn mul(self, rhs: Vertex3<i64>) -> (r: i64) {
        self.x * rhs.x + self.y * rhs.y + self.z * rhs.z
    }
}

impl vstd::std_specs::ops::MulSpecImpl<Vertex3<i64>> for Vertex3<i64> {
    open spec fn obeys_mul_spec() -> bool {
        true
    }

    open spec fn mul_req(self, rhs: Vertex3<i64>) -> bool {
        &&& i64::MIN <= self.x * rhs.x <= i64::MAX
        &&& i64::MIN <= self.y * rhs.y <= i64::MAX
        &&& i64::MIN <= self.z * rhs.z <= i64::MAX
        &&& i64::MIN <= self.x * rhs.x + self.y * rhs.y <= i64::MAX
        &&& i64::MIN <= dot3(self, rhs) <= i64::MAX
    }

    open spec fn mul_spec(self, rhs: Vertex3<i64>) -> i64 {
        dot3(self, rhs) as i64
    }
}

impl core::ops::Mul<Vertex2<i64>> for Vertex2<i64> {
    type Output = i64;

    /// The exact dot product.
    fn mul(self, rhs: Vertex2<i64>) -> (r: i64) {
        proof {
            lemma_abs_product(self.x as int, rhs.x as int, ENTRY_LIMIT as int);
            lemma_abs_product(self.y as int, rhs.y as int, ENTRY_LIMIT as int);
        }
        self.x * rhs.x + self.y * rhs.y
    }
}

impl vstd::std_specs::ops::MulSpecImpl<Vertex2<i64>> for Vertex2<i64> {
    open spec fn obeys_mul_spec() -> bool {
        true
    }

    open spec fn mul_req(self, rhs: Vertex2<i64>) -> bool {
        &&& -ENTRY_LIMIT <= self.x <= ENTRY_LIMIT
        &&& -ENTRY_LIMIT <= self.y <= ENTRY_LIMIT
        &&& -ENTRY_LIMIT <= rhs.x <= ENTRY_LIMIT
        &&& -ENTRY_LIMIT <= rhs.y <= ENTRY_LIMIT
    }

    open spec fn mul_spec(self, rhs: Vertex2<i64>) -> i64 {
        dot2(self, rhs) as i64
    }
}

impl core::ops::Mul<i64> for Vertex3<i64> {
    type Output = Vertex3<i64>;

    /// Scales every component by the fixed-point factor.
    fn mul(self, rhs: i64) -> (r: Vertex3<i64>) {
        Vertex3 { x: fx_mul(self.x, rhs), y: fx_mul(self.y, rhs), z: fx_mul(self.z, rhs) }
    }
}

impl vstd::std_specs::ops::MulSpecImpl<i64> for Vertex3<i64> {
    open spec fn obeys_mul_spec() -> bool {
        true
    }

    open spec fn mul_req(self, rhs: i64) -> bool {
        &&& i64::MIN <= self.x * rhs <= i64::MAX
        &&& i64::MIN <= self.y * rhs <= i64::MAX
        &&& i64::MIN <= self.z * rhs <= i64::MAX
    }

    open spec fn mul_spec(self, rhs: i64) -> Vertex3<i64> {
        Vertex3 {
            x: tdiv(self.x * rhs, SCALE as int) as i64,
            y: tdiv(self.y * rhs, SCALE as int) as i64,
            z: tdiv(self.z * rhs, SCALE as int) as i64,
        }
    }
}

impl core::ops::Mul<i64> for Vertex2<i64> {
    type Output = Vertex2<i64>;

    /// Scales both components by the fixed-point factor.
    fn mul(self, rhs: i64) -> (r: Vertex2<i64>) {
        Vertex2 { x: fx_mul(self.x, rhs), y: fx_mul(self.y, rhs) }
    }
}

impl vstd::std_specs::ops::MulSpecImpl<i64> for Vertex2<i64> {
    open spec fn obeys_mul_spec() -> bool {
        true
    }

    open spec fn mul_req(self, rhs: i64) -> bool {
        &&& i64::MIN <= self.x * rhs <= i64::MAX
        &&& i64::MIN <= self.y * rhs <= i64::MAX
    }

    open spec fn mul_spec(self, rhs: i64) -> Vertex2<i64> {
        Vertex2 {
            x: tdiv(self.x * rhs, SCALE as int) as i64,
            y: tdiv(self.y * rhs, SCALE as int) as i64,
        }
    }
}

/// `|a| <= b` and `0 <= c` give `|a * c| <= b * c`.
pub proof fn lemma_bounded_product(a: int, b: int, c: int)
    requires
        -b <= a <= b,
        0 <= b,
        0 <= c,
    ensures
        -(b * c) <= a * c <= b * c,
{
    assert(-(b * c) <= a * c <= b * c) by (nonlinear_arith)
        requires
            -b <= a <= b,
            0 <= b,
            0 <= c,
    ;
}

} // verus!
