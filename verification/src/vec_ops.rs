//! Fixed-point vectors and small matrices: normalization, matrix-vector
//! application, and element-wise collection operations.

use vstd::prelude::*;

use crate::fixed::FP_ONE;
use crate::fixed::fp_mul;
use crate::fixed::isqrt_u128;
use crate::fixed::lemma_fp_mul_bound;
use crate::fixed::lemma_trunc_div_bounds;
use crate::fixed::spec_abs;
use crate::fixed::spec_fp_mul;
use crate::fixed::spec_isqrt;
use crate::fixed::trunc_div;
use crate::venom_core::Scalar;

verus! {

/// Largest component magnitude `normalize3` accepts.
pub const NORM_INPUT_LIMIT: i64 = 0x3000_0000_0000_0000;

/// Cap on the magnitude of one fixed-point product inside a
/// matrix-vector application.
pub const MAT_TERM_LIMIT: i64 = 0x1000_0000_0000_0000;

/// A 3-by-3 matrix of fixed-point scalars, row by row.
#[derive(Debug, Clone, Copy, PartialEq)]
pub struct Mat3 {
    pub r0: (Scalar, Scalar, Scalar),
    pub r1: (Scalar, Scalar, Scalar),
    pub r2: (Scalar, Scalar, Scalar),
}

/// A 4-by-4 matrix of fixed-point scalars, row by row.
#[derive(Debug, Clone, Copy, PartialEq)]
pub struct Mat4 {
    pub r0: (Scalar, Scalar, Scalar, Scalar),
    pub r1: (Scalar, Scalar, Scalar, Scalar),
    pub r2: (Scalar, Scalar, Scalar, Scalar),
    pub r3: (Scalar, Scalar, Scalar, Scalar),
}

/// The squared Euclidean length.
pub open spec fn spec_norm_sq(v: (int, int, int)) -> int {
    v.0 * v.0 + v.1 * v.1 + v.2 * v.2
}

/// Scaling to unit length in fixed point: each component times `FP_ONE`,
/// divided by the integer square root of the squared length, rounding
/// toward zero. The zero vector stays zero.
pub open spec fn spec_normalize3(v: (int, int, int)) -> (int, int, int) {
    let n = spec_isqrt(spec_norm_sq(v));
    if n == 0 {
        (0, 0, 0)
    } else {
        (
            trunc_div(v.0 * (FP_ONE as int), n),
            trunc_div(v.1 * (FP_ONE as int), n),
            trunc_div(v.2 * (FP_ONE as int), n),
        )
    }
}

/// Fixed-point matrix-vector application, one rounded product per entry.
pub open spec fn spec_mat3_mul_vec3(m: Mat3, v: (int, int, int)) -> (int, int, int) {
    (
        spec_fp_mul(m.r0.0 as int, v.0) + spec_fp_mul(m.r0.1 as int, v.1) + spec_fp_mul(
            m.r0.2 as int,
            v.2,
        ),
        spec_fp_mul(m.r1.0 as int, v.0) + spec_fp_mul(m.r1.1 as int, v.1) + spec_fp_mul(
            m.r1.2 as int,
            v.2,
        ),
        spec_fp_mul(m.r2.0 as int, v.0) + spec_fp_mul(m.r2.1 as int, v.1) + spec_fp_mul(
            m.r2.2 as int,
            v.2,
        ),
    )
}

/// Every product of a matrix entry with a vector component stays under
/// the term cap: the application then fits a scalar with room to spare.
pub open spec fn mat3_vec3_in_range(m: Mat3, v: (int, int, int)) -> bool {
    &&& spec_abs(m.r0.0 as int) * spec_abs(v.0) <= MAT_TERM_LIMIT as int * (FP_ONE as int)
    &&& spec_abs(m.r0.1 as int) * spec_abs(v.1) <= MAT_TERM_LIMIT as int * (FP_ONE as int)
    &&& spec_abs(m.r0.2 as int) * spec_abs(v.2) <= MAT_TERM_LIMIT as int * (FP_ONE as int)
    &&& spec_abs(m.r1.0 as int) * spec_abs(v.0) <= MAT_TERM_LIMIT as int * (FP_ONE as int)
    &&& spec_abs(m.r1.1 as int) * spec_abs(v.1) <= MAT_TERM_LIMIT as int * (FP_ONE as int)
    &&& spec_abs(m.r1.2 as int) * spec_abs(v.2) <= MAT_TERM_LIMIT as int * (FP_ONE as int)
    &&& spec_abs(m.r2.0 as int) * spec_abs(v.0) <= MAT_TERM_LIMIT as int * (FP_ONE as int)
    &&& spec_abs(m.r2.1 as int) * spec_abs(v.1) <= MAT_TERM_LIMIT as int * (FP_ONE as int)
    &&& spec_abs(m.r2.2 as int) * spec_abs(v.2) <= MAT_TERM_LIMIT as int * (FP_ONE as int)
}

/// The rotation part of a homogeneous transform: its upper-left block.
pub open spec fn mat4_linear(m: Mat4) -> Mat3 {
    Mat3 {
        r0: (m.r0.0, m.r0.1, m.r0.2),
        r1: (m.r1.0, m.r1.1, m.r1.2),
        r2: (m.r2.0, m.r2.1, m.r2.2),
    }
}

/// The translation part of a homogeneous transform: its last column.
pub open spec fn mat4_translation(m: Mat4) -> (Scalar, Scalar, Scalar) {
    (m.r0.3, m.r1.3, m.r2.3)
}

/// One normalized component stays within the fixed-point unit.
proof fn lemma_normalize_component(a: int, n: int)
    requires
        n >= 1,
        spec_abs(a) <= n,
    ensures
        spec_abs(trunc_div(a * (FP_ONE as int), n)) <= FP_ONE as int,
{
    lemma_trunc_div_bounds(a * (FP_ONE as int), n);
    assert(spec_abs(a * (FP_ONE as int)) == spec_abs(a) * (FP_ONE as int)) by (nonlinear_arith);
    assert(spec_abs(a) * (FP_ONE as int) <= n * (FP_ONE as int)) by (nonlinear_arith)
        requires
            spec_abs(a) <= n,
    ;
    let q = spec_abs(trunc_div(a * (FP_ONE as int), n));
    assert(n * q <= n * (FP_ONE as int) ==> q <= FP_ONE as int) by (nonlinear_arith)
        requires
            n >= 1,
    ;
}

/// Scale a vector to unit length in fixed point, rounding toward zero.
pub fn normalize3(v: (Scalar, Scalar, Scalar)) -> (r: (Scalar, Scalar, Scalar))
    requires
        spec_abs(v.0 as int) <= NORM_INPUT_LIMIT as int,
        spec_abs(v.1 as int) <= NORM_INPUT_LIMIT as int,
        spec_abs(v.2 as int) <= NORM_INPUT_LIMIT as int,
    ensures
        (r.0 as int, r.1 as int, r.2 as int) == spec_normalize3(
            (v.0 as int, v.1 as int, v.2 as int),
        ),
        spec_abs(r.0 as int) <= FP_ONE as int,
        spec_abs(r.1 as int) <= FP_ONE as int,
        spec_abs(r.2 as int) <= FP_ONE as int,
{
    let x: i128 = v.0 as i128;
    let y: i128 = v.1 as i128;
    let z: i128 = v.2 as i128;
    proof {
        assert(x * x <= (NORM_INPUT_LIMIT as int) * (NORM_INPUT_LIMIT as int) && x * x >= 0)
            by (nonlinear_arith)
            requires
                spec_abs(x as int) <= NORM_INPUT_LIMIT as int,
        ;
        assert(y * y <= (NORM_INPUT_LIMIT as int) * (NORM_INPUT_LIMIT as int) && y * y >= 0)
            by (nonlinear_arith)
            requires
                spec_abs(y as int) <= NORM_INPUT_LIMIT as int,
        ;
        assert(z * z <= (NORM_INPUT_LIMIT as int) * (NORM_INPUT_LIMIT as int) && z * z >= 0)
            by (nonlinear_arith)
            requires
                spec_abs(z as int) <= NORM_INPUT_LIMIT as int,
        ;
    }
    let m: u128 = (x * x + y * y + z * z) as u128;
    let n: u128 = isqrt_u128(m);
    if n == 0 {
        (0, 0, 0)
    } else {
        proof {
            crate::fixed::lemma_isqrt_bounds(m as int);
            assert(spec_abs(x as int) <= n as int && spec_abs(y as int) <= n as int && spec_abs(
                z as int,
            ) <= n as int) by (nonlinear_arith)
                requires
                    (x as int) * (x as int) + (y as int) * (y as int) + (z as int) * (z as int)
                        < ((n as int) + 1) * ((n as int) + 1),
                    (x as int) * (x as int) >= 0,
                    (y as int) * (y as int) >= 0,
                    (z as int) * (z as int) >= 0,
                    n as int >= 1,
            ;
            lemma_normalize_component(x as int, n as int);
            lemma_normalize_component(y as int, n as int);
            lemma_normalize_component(z as int, n as int);
        }
        let rx: i128 = crate::fixed::trunc_div_i128(x * (FP_ONE as i128), n as i128);
        let ry: i128 = crate::fixed::trunc_div_i128(y * (FP_ONE as i128), n as i128);
        let rz: i128 = crate::fixed::trunc_div_i128(z * (FP_ONE as i128), n as i128);
        (rx as i64, ry as i64, rz as i64)
    }
}

/// Law (unit length): normalizing any vector of at least unit length
/// yields a direction whose squared length is the square of the
/// fixed-point unit, within a few rounding steps of one unit.
pub proof fn lemma_normalize3_unit(v: (int, int, int))
    requires
        spec_norm_sq(v) >= (FP_ONE as int) * (FP_ONE as int),
    ensures
        (FP_ONE as int) * (FP_ONE as int) - 6 * (FP_ONE as int) - 3 <= spec_norm_sq(
            spec_normalize3(v),
        ),
        spec_norm_sq(spec_normalize3(v)) <= (FP_ONE as int) * (FP_ONE as int) + 3 * (
        FP_ONE as int),
{
    let s = FP_ONE as int;
    let m = spec_norm_sq(v);
    crate::fixed::lemma_isqrt_bounds(m);
    let n = spec_isqrt(m);
    assert(n >= s) by (nonlinear_arith)
        requires
            s * s <= m,
            m < (n + 1) * (n + 1),
            n >= 0,
            s == 0x10000,
    ;
    let r = spec_normalize3(v);
    assert(spec_abs(v.0) <= n && spec_abs(v.1) <= n && spec_abs(v.2) <= n) by (nonlinear_arith)
        requires
            v.0 * v.0 + v.1 * v.1 + v.2 * v.2 < (n + 1) * (n + 1),
            n >= 0,
    ;
    lemma_trunc_div_bounds(v.0 * s, n);
    lemma_trunc_div_bounds(v.1 * s, n);
    lemma_trunc_div_bounds(v.2 * s, n);
    assert(spec_abs(v.0 * s) == spec_abs(v.0) * s && spec_abs(v.1 * s) == spec_abs(v.1) * s
        && spec_abs(v.2 * s) == spec_abs(v.2) * s) by (nonlinear_arith)
        requires
            s >= 0,
    ;
    let a0 = spec_abs(r.0);
    let a1 = spec_abs(r.1);
    let a2 = spec_abs(r.2);
    // each component stays within one unit
    assert(a0 <= s && a1 <= s && a2 <= s) by (nonlinear_arith)
        requires
            n * a0 <= spec_abs(v.0) * s,
            n * a1 <= spec_abs(v.1) * s,
            n * a2 <= spec_abs(v.2) * s,
            spec_abs(v.0) <= n,
            spec_abs(v.1) <= n,
            spec_abs(v.2) <= n,
            a0 >= 0,
            a1 >= 0,
            a2 >= 0,
            n >= 1,
            s >= 1,
    ;
    assert(spec_abs(v.0) * spec_abs(v.0) == v.0 * v.0 && spec_abs(v.1) * spec_abs(v.1) == v.1
        * v.1 && spec_abs(v.2) * spec_abs(v.2) == v.2 * v.2) by (nonlinear_arith);
    assert(a0 == r.0 || a0 == -r.0);
    assert(a1 == r.1 || a1 == -r.1);
    assert(a2 == r.2 || a2 == -r.2);
    assert(r.0 * r.0 == a0 * a0 && r.1 * r.1 == a1 * a1 && r.2 * r.2 == a2 * a2)
        by (nonlinear_arith)
        requires
            a0 == r.0 || a0 == -r.0,
            a1 == r.1 || a1 == -r.1,
            a2 == r.2 || a2 == -r.2,
    ;
    // the squared length, bounded above: n^2 sum <= s^2 m < s^2 (n+1)^2
    lemma_sq_le(n * a0, spec_abs(v.0) * s);
    lemma_sq_le(n * a1, spec_abs(v.1) * s);
    lemma_sq_le(n * a2, spec_abs(v.2) * s);
    assert((n * a0) * (n * a0) == (n * n) * (a0 * a0) && (n * a1) * (n * a1) == (n * n) * (a1
        * a1) && (n * a2) * (n * a2) == (n * n) * (a2 * a2)) by (nonlinear_arith);
    assert((spec_abs(v.0) * s) * (spec_abs(v.0) * s) == (v.0 * v.0) * (s * s) && (spec_abs(v.1)
        * s) * (spec_abs(v.1) * s) == (v.1 * v.1) * (s * s) && (spec_abs(v.2) * s) * (spec_abs(
        v.2,
    ) * s) == (v.2 * v.2) * (s * s)) by (nonlinear_arith)
        requires
            spec_abs(v.0) * spec_abs(v.0) == v.0 * v.0,
            spec_abs(v.1) * spec_abs(v.1) == v.1 * v.1,
            spec_abs(v.2) * spec_abs(v.2) == v.2 * v.2,
    ;
    assert((n * n) * (a0 * a0 + a1 * a1 + a2 * a2) == (n * n) * (a0 * a0) + (n * n) * (a1 * a1) + (
    n * n) * (a2 * a2)) by (nonlinear_arith);
    assert((s * s) * m == (v.0 * v.0) * (s * s) + (v.1 * v.1) * (s * s) + (v.2 * v.2) * (s * s))
        by (nonlinear_arith)
        requires
            m == v.0 * v.0 + v.1 * v.1 + v.2 * v.2,
    ;
    assert((n * n) * (a0 * a0 + a1 * a1 + a2 * a2) <= (s * s) * m);
    assert((s * s) * m < (s * s) * ((n + 1) * (n + 1))) by (nonlinear_arith)
        requires
            m < (n + 1) * (n + 1),
            s >= 1,
    ;
    assert((s * s) * ((n + 1) * (n + 1)) <= (n * n) * (s * s + 3 * s)) by (nonlinear_arith)
        requires
            s <= n,
            s >= 1,
    ;
    assert(a0 * a0 + a1 * a1 + a2 * a2 <= s * s + 3 * s) by (nonlinear_arith)
        requires
            (n * n) * (a0 * a0 + a1 * a1 + a2 * a2) < (n * n) * (s * s + 3 * s),
            n >= 1,
    ;
    // the squared length, bounded below: n^2 sum of (|r_i|+1)^2 >= s^2 m >= s^2 n^2
    lemma_sq_le(spec_abs(v.0) * s, n * (a0 + 1));
    lemma_sq_le(spec_abs(v.1) * s, n * (a1 + 1));
    lemma_sq_le(spec_abs(v.2) * s, n * (a2 + 1));
    assert((n * (a0 + 1)) * (n * (a0 + 1)) == (n * n) * ((a0 + 1) * (a0 + 1)) && (n * (a1 + 1)) * (
    n * (a1 + 1)) == (n * n) * ((a1 + 1) * (a1 + 1)) && (n * (a2 + 1)) * (n * (a2 + 1)) == (n * n)
        * ((a2 + 1) * (a2 + 1))) by (nonlinear_arith);
    assert((n * n) * ((a0 + 1) * (a0 + 1) + (a1 + 1) * (a1 + 1) + (a2 + 1) * (a2 + 1)) == (n * n)
        * ((a0 + 1) * (a0 + 1)) + (n * n) * ((a1 + 1) * (a1 + 1)) + (n * n) * ((a2 + 1) * (a2
        + 1))) by (nonlinear_arith);
    assert((n * n) * ((a0 + 1) * (a0 + 1) + (a1 + 1) * (a1 + 1) + (a2 + 1) * (a2 + 1)) >= (s * s)
        * m);
    assert((s * s) * (n * n) <= (s * s) * m) by (nonlinear_arith)
        requires
            n * n <= m,
            s >= 1,
    ;
    assert((a0 + 1) * (a0 + 1) + (a1 + 1) * (a1 + 1) + (a2 + 1) * (a2 + 1) >= s * s)
        by (nonlinear_arith)
        requires
            (n * n) * ((a0 + 1) * (a0 + 1) + (a1 + 1) * (a1 + 1) + (a2 + 1) * (a2 + 1)) >= (n * n)
                * (s * s),
            n >= 1,
    ;
    assert(a0 * a0 + a1 * a1 + a2 * a2 >= s * s - 6 * s - 3) by (nonlinear_arith)
        requires
            (a0 + 1) * (a0 + 1) + (a1 + 1) * (a1 + 1) + (a2 + 1) * (a2 + 1) >= s * s,
            a0 <= s,
            a1 <= s,
            a2 <= s,
            a0 >= 0,
            a1 >= 0,
            a2 >= 0,
    ;
}

/// Squaring keeps order on the nonnegative side.
proof fn lemma_sq_le(x: int, y: int)
    requires
        0 <= x,
        x <= y,
    ensures
        x * x <= y * y,
{
    assert(x * x <= y * y) by (nonlinear_arith)
        requires
            0 <= x,
            x <= y,
    ;
}

/// Apply a fixed-point matrix to a vector, rounding each product.
pub fn mat3_mul_vec3(m: &Mat3, v: (Scalar, Scalar, Scalar)) -> (r: (Scalar, Scalar, Scalar))
    requires
        mat3_vec3_in_range(*m, (v.0 as int, v.1 as int, v.2 as int)),
    ensures
        (r.0 as int, r.1 as int, r.2 as int) == spec_mat3_mul_vec3(
            *m,
            (v.0 as int, v.1 as int, v.2 as int),
        ),
        spec_abs(r.0 as int) <= 3 * (MAT_TERM_LIMIT as int),
        spec_abs(r.1 as int) <= 3 * (MAT_TERM_LIMIT as int),
        spec_abs(r.2 as int) <= 3 * (MAT_TERM_LIMIT as int),
{
    proof {
        lemma_fp_mul_bound(m.r0.0 as int, v.0 as int, MAT_TERM_LIMIT as int);
        lemma_fp_mul_bound(m.r0.1 as int, v.1 as int, MAT_TERM_LIMIT as int);
        lemma_fp_mul_bound(m.r0.2 as int, v.2 as int, MAT_TERM_LIMIT as int);
        lemma_fp_mul_bound(m.r1.0 as int, v.0 as int, MAT_TERM_LIMIT as int);
        lemma_fp_mul_bound(m.r1.1 as int, v.1 as int, MAT_TERM_LIMIT as int);
        lemma_fp_mul_bound(m.r1.2 as int, v.2 as int, MAT_TERM_LIMIT as int);
        lemma_fp_mul_bound(m.r2.0 as int, v.0 as int, MAT_TERM_LIMIT as int);
        lemma_fp_mul_bound(m.r2.1 as int, v.1 as int, MAT_TERM_LIMIT as int);
        lemma_fp_mul_bound(m.r2.2 as int, v.2 as int, MAT_TERM_LIMIT as int);
    }
    let r0: i64 = fp_mul(m.r0.0, v.0) + fp_mul(m.r0.1, v.1) + fp_mul(m.r0.2, v.2);
    let r1: i64 = fp_mul(m.r1.0, v.0) + fp_mul(m.r1.1, v.1) + fp_mul(m.r1.2, v.2);
    let r2: i64 = fp_mul(m.r2.0, v.0) + fp_mul(m.r2.1, v.1) + fp_mul(m.r2.2, v.2);
    (r0, r1, r2)
}

/// Every component of every element within the given magnitude.
pub open spec fn elems3_bounded(s: Seq<(Scalar, Scalar, Scalar)>, cap: int) -> bool {
    forall|k: int|
        0 <= k < s.len() ==> spec_abs((#[trigger] s[k]).0 as int) <= cap && spec_abs(
            s[k].1 as int,
        ) <= cap && spec_abs(s[k].2 as int) <= cap
}

/// Map a collection of points through a matrix.
pub trait Transform<T, M>: Sized {
    /// Whether every product stays within exact-arithmetic range.
    spec fn transform_req(&self, matrix: &M) -> bool;

    /// What the transformed collection holds.
    spec fn spec_transform(&self, matrix: &M) -> Seq<T>;

    /// Apply the matrix to every element, in order.
    fn transform(&self, matrix: &M) -> (r: Vec<T>)
        requires
            self.transform_req(matrix),
        ensures
            r@ == self.spec_transform(matrix),
    ;
}

impl Transform<(Scalar, Scalar, Scalar), Mat3> for Vec<(Scalar, Scalar, Scalar)> {
    open spec fn transform_req(&self, matrix: &Mat3) -> bool {
        forall|k: int|
            0 <= k < self@.len() ==> mat3_vec3_in_range(
                *matrix,
                ((#[trigger] self@[k]).0 as int, self@[k].1 as int, self@[k].2 as int),
            )
    }

    open spec fn spec_transform(&self, matrix: &Mat3) -> Seq<(Scalar, Scalar, Scalar)> {
        self@.map_values(
            |v: (Scalar, Scalar, Scalar)|
                {
                    let r = spec_mat3_mul_vec3(*matrix, (v.0 as int, v.1 as int, v.2 as int));
                    (r.0 as i64, r.1 as i64, r.2 as i64)
                },
        )
    }

    fn transform(&self, matrix: &Mat3) -> (r: Vec<(Scalar, Scalar, Scalar)>) {
        let mut out: Vec<(Scalar, Scalar, Scalar)> = Vec::new();
        let mut i: usize = 0;
        while i < self.len()
            invariant
                i <= self@.len(),
                self.transform_req(matrix),
                out@.len() == i,
                forall|k: int|
                    0 <= k < i ==> #[trigger] out@[k] == self.spec_transform(matrix)[k],
            decreases self@.len() - i,
        {
            out.push(mat3_mul_vec3(matrix, self[i]));
            i = i + 1;
        }
        proof {
            assert(out@ =~= self.spec_transform(matrix));
        }
        out
    }
}

/// Scale every vector of a collection to unit length.
pub trait Normalize<T>: Sized {
    /// Whether every component is small enough to normalize exactly.
    spec fn normalize_req(&self) -> bool;

    /// What the normalized collection holds.
    spec fn spec_normalized(&self) -> Seq<T>;

    /// Normalize every element, in order.
    fn normalize(&self) -> (r: Vec<T>)
        requires
            self.normalize_req(),
        ensures
            r@ == self.spec_normalized(),
    ;
}

impl Normalize<(Scalar, Scalar, Scalar)> for Vec<(Scalar, Scalar, Scalar)> {
    open spec fn normalize_req(&self) -> bool {
        elems3_bounded(self@, NORM_INPUT_LIMIT as int)
    }

    open spec fn spec_normalized(&self) -> Seq<(Scalar, Scalar, Scalar)> {
        self@.map_values(
            |v: (Scalar, Scalar, Scalar)|
                {
                    let r = spec_normalize3((v.0 as int, v.1 as int, v.2 as int));
                    (r.0 as i64, r.1 as i64, r.2 as i64)
                },
        )
    }

    fn normalize(&self) -> (r: Vec<(Scalar, Scalar, Scalar)>) {
        let mut out: Vec<(Scalar, Scalar, Scalar)> = Vec::new();
        let mut i: usize = 0;
        while i < self.len()
            invariant
                i <= self@.len(),
                self.normalize_req(),
                out@.len() == i,
                forall|k: int|
                    0 <= k < i ==> #[trigger] out@[k] == self.spec_normalized()[k],
            decreases self@.len() - i,
        {
            out.push(normalize3(self[i]));
            i = i + 1;
        }
        proof {
            assert(out@ =~= self.spec_normalized());
        }
        out
    }
}

/// Extend every vector of a collection by a homogeneous one.
pub trait AppendOne<T, U>: Sized {
    /// What the extended collection holds.
    spec fn spec_append_one(&self) -> Seq<U>;

    /// Append the fixed-point one to every element, in order.
    fn append_one(&self) -> (r: Vec<U>)
        ensures
            r@ == self.spec_append_one(),
    ;
}

impl AppendOne<(Scalar, Scalar), (Scalar, Scalar, Scalar)> for Vec<(Scalar, Scalar)> {
    open spec fn spec_append_one(&self) -> Seq<(Scalar, Scalar, Scalar)> {
        self@.map_values(|v: (Scalar, Scalar)| (v.0, v.1, FP_ONE))
    }

    fn append_one(&self) -> (r: Vec<(Scalar, Scalar, Scalar)>) {
        let mut out: Vec<(Scalar, Scalar, Scalar)> = Vec::new();
        let mut i: usize = 0;
        while i < self.len()
            invariant
                i <= self@.len(),
                out@.len() == i,
                forall|k: int|
                    0 <= k < i ==> #[trigger] out@[k] == self.spec_append_one()[k],
            decreases self@.len() - i,
        {
            let v = self[i];
            out.push((v.0, v.1, FP_ONE));
            i = i + 1;
        }
        proof {
            assert(out@ =~= self.spec_append_one());
        }
        out
    }
}

/// Replace every vector of a collection by the zero vector.
pub trait Zeros<T>: Sized {
    /// What the zeroed collection holds.
    spec fn spec_zeros(&self) -> Seq<T>;

    /// One zero vector per element.
    fn zeros(&self) -> (r: Vec<T>)
        ensures
            r@ == self.spec_zeros(),
    ;
}

impl Zeros<(Scalar, Scalar, Scalar)> for Vec<(Scalar, Scalar, Scalar)> {
    open spec fn spec_zeros(&self) -> Seq<(Scalar, Scalar, Scalar)> {
        self@.map_values(|v: (Scalar, Scalar, Scalar)| (0i64, 0i64, 0i64))
    }

    fn zeros(&self) -> (r: Vec<(Scalar, Scalar, Scalar)>) {
        let mut out: Vec<(Scalar, Scalar, Scalar)> = Vec::new();
        let mut i: usize = 0;
        while i < self.len()
            invariant
                i <= self@.len(),
                out@.len() == i,
                forall|k: int| 0 <= k < i ==> #[trigger] out@[k] == self.spec_zeros()[k],
            decreases self@.len() - i,
        {
            out.push((0, 0, 0));
            i = i + 1;
        }
        proof {
            assert(out@ =~= self.spec_zeros());
        }
        out
    }
}

/// Element-wise arithmetic between every vector and one scalar.
pub trait ScalarOperations<T>: Sized + View {
    /// Whether sums and products with the scalar stay exact.
    spec fn sop_req(&self, scalar: T) -> bool;

    /// Whether the scalar may divide.
    spec fn sop_div_req(&self, scalar: T) -> bool;

    /// What each operation yields.
    spec fn spec_add_scalar(&self, scalar: T) -> Self::V;

    spec fn spec_sub_scalar(&self, scalar: T) -> Self::V;

    spec fn spec_mul_scalar(&self, scalar: T) -> Self::V;

    spec fn spec_div_scalar(&self, scalar: T) -> Self::V;

    /// Add the scalar to every component.
    fn add_scalar(&self, scalar: T) -> (r: Self)
        requires
            self.sop_req(scalar),
        ensures
            r@ == self.spec_add_scalar(scalar),
    ;

    /// Subtract the scalar from every component.
    fn sub_scalar(&self, scalar: T) -> (r: Self)
        requires
            self.sop_req(scalar),
        ensures
            r@ == self.spec_sub_scalar(scalar),
    ;

    /// Multiply every component by the scalar, rounding toward zero.
    fn mul_scalar(&self, scalar: T) -> (r: Self)
        requires
            self.sop_req(scalar),
        ensures
            r@ == self.spec_mul_scalar(scalar),
    ;

    /// Divide every component by the scalar, rounding toward zero.
    fn div_scalar(&self, scalar: T) -> (r: Self)
        requires
            self.sop_req(scalar),
            self.sop_div_req(scalar),
        ensures
            r@ == self.spec_div_scalar(scalar),
    ;
}

impl ScalarOperations<Scalar> for Vec<(Scalar, Scalar, Scalar)> {
    open spec fn sop_req(&self, scalar: Scalar) -> bool {
        elems3_bounded(self@, crate::fixed::COORD_LIMIT as int) && spec_abs(scalar as int)
            <= crate::fixed::COORD_LIMIT as int
    }

    open spec fn sop_div_req(&self, scalar: Scalar) -> bool {
        scalar >= 1
    }

    open spec fn spec_add_scalar(&self, scalar: Scalar) -> Seq<(Scalar, Scalar, Scalar)> {
        self@.map_values(
            |v: (Scalar, Scalar, Scalar)|
                (
                    (v.0 + scalar) as i64,
                    (v.1 + scalar) as i64,
                    (v.2 + scalar) as i64,
                ),
        )
    }

    open spec fn spec_sub_scalar(&self, scalar: Scalar) -> Seq<(Scalar, Scalar, Scalar)> {
        self@.map_values(
            |v: (Scalar, Scalar, Scalar)|
                (
                    (v.0 - scalar) as i64,
                    (v.1 - scalar) as i64,
                    (v.2 - scalar) as i64,
                ),
        )
    }

    open spec fn spec_mul_scalar(&self, scalar: Scalar) -> Seq<(Scalar, Scalar, Scalar)> {
        self@.map_values(
            |v: (Scalar, Scalar, Scalar)|
                (
                    spec_fp_mul(v.0 as int, scalar as int) as i64,
                    spec_fp_mul(v.1 as int, scalar as int) as i64,
                    spec_fp_mul(v.2 as int, scalar as int) as i64,
                ),
        )
    }

    open spec fn spec_div_scalar(&self, scalar: Scalar) -> Seq<(Scalar, Scalar, Scalar)> {
        self@.map_values(
            |v: (Scalar, Scalar, Scalar)|
                (
                    crate::fixed::spec_fp_div(v.0 as int, scalar as int) as i64,
                    crate::fixed::spec_fp_div(v.1 as int, scalar as int) as i64,
                    crate::fixed::spec_fp_div(v.2 as int, scalar as int) as i64,
                ),
        )
    }

    fn add_scalar(&self, scalar: Scalar) -> (r: Self) {
        let mut out: Vec<(Scalar, Scalar, Scalar)> = Vec::new();
        let mut i: usize = 0;
        while i < self.len()
            invariant
                i <= self@.len(),
                self.sop_req(scalar),
                out@.len() == i,
                forall|k: int|
                    0 <= k < i ==> #[trigger] out@[k] == self.spec_add_scalar(scalar)[k],
            decreases self@.len() - i,
        {
            let v = self[i];
            out.push((v.0 + scalar, v.1 + scalar, v.2 + scalar));
            i = i + 1;
        }
        proof {
            assert(out@ =~= self.spec_add_scalar(scalar));
        }
        out
    }

    fn sub_scalar(&self, scalar: Scalar) -> (r: Self) {
        let mut out: Vec<(Scalar, Scalar, Scalar)> = Vec::new();
        let mut i: usize = 0;
        while i < self.len()
            invariant
                i <= self@.len(),
                self.sop_req(scalar),
                out@.len() == i,
                forall|k: int|
                    0 <= k < i ==> #[trigger] out@[k] == self.spec_sub_scalar(scalar)[k],
            decreases self@.len() - i,
        {
            let v = self[i];
            out.push((v.0 - scalar, v.1 - scalar, v.2 - scalar));
            i = i + 1;
        }
        proof {
            assert(out@ =~= self.spec_sub_scalar(scalar));
        }
        out
    }

    fn mul_scalar(&self, scalar: Scalar) -> (r: Self) {
        let mut out: Vec<(Scalar, Scalar, Scalar)> = Vec::new();
        let mut i: usize = 0;
        while i < self.len()
            invariant
                i <= self@.len(),
                self.sop_req(scalar),
                out@.len() == i,
                forall|k: int|
                    0 <= k < i ==> #[trigger] out@[k] == self.spec_mul_scalar(scalar)[k],
            decreases self@.len() - i,
        {
            let v = self[i];
            proof {
                assert forall|a: int, b: int|
                    spec_abs(a) <= crate::fixed::COORD_LIMIT as int && spec_abs(b)
                        <= crate::fixed::COORD_LIMIT as int implies spec_abs(a) * spec_abs(b)
                    <= 0x1000_0000_0000_0000 * (FP_ONE as int) by {
                    vstd::arithmetic::mul::lemma_mul_upper_bound(
                        spec_abs(a),
                        crate::fixed::COORD_LIMIT as int,
                        spec_abs(b),
                        crate::fixed::COORD_LIMIT as int,
                    );
                }
                lemma_fp_mul_bound(v.0 as int, scalar as int, 0x1000_0000_0000_0000);
                lemma_fp_mul_bound(v.1 as int, scalar as int, 0x1000_0000_0000_0000);
                lemma_fp_mul_bound(v.2 as int, scalar as int, 0x1000_0000_0000_0000);
            }
            out.push((fp_mul(v.0, scalar), fp_mul(v.1, scalar), fp_mul(v.2, scalar)));
            i = i + 1;
        }
        proof {
            assert(out@ =~= self.spec_mul_scalar(scalar));
        }
        out
    }

    fn div_scalar(&self, scalar: Scalar) -> (r: Self) {
        let mut out: Vec<(Scalar, Scalar, Scalar)> = Vec::new();
        let mut i: usize = 0;
        while i < self.len()
            invariant
                i <= self@.len(),
                self.sop_req(scalar),
                self.sop_div_req(scalar),
                out@.len() == i,
                forall|k: int|
                    0 <= k < i ==> #[trigger] out@[k] == self.spec_div_scalar(scalar)[k],
            decreases self@.len() - i,
        {
            let v = self[i];
            proof {
                lemma_trunc_div_bounds((v.0 as int) * (FP_ONE as int), scalar as int);
                lemma_trunc_div_bounds((v.1 as int) * (FP_ONE as int), scalar as int);
                lemma_trunc_div_bounds((v.2 as int) * (FP_ONE as int), scalar as int);
                assert forall|a: int|
                    spec_abs(a) <= crate::fixed::COORD_LIMIT as int implies #[trigger] spec_abs(
                    a * (FP_ONE as int),
                ) <= (crate::fixed::COORD_LIMIT as int) * (FP_ONE as int) by {
                    assert(spec_abs(a * (FP_ONE as int)) == spec_abs(a) * (FP_ONE as int))
                        by (nonlinear_arith);
                    vstd::arithmetic::mul::lemma_mul_upper_bound(
                        spec_abs(a),
                        crate::fixed::COORD_LIMIT as int,
                        FP_ONE as int,
                        FP_ONE as int,
                    );
                }
            }
            out.push(
                (
                    crate::fixed::fp_div(v.0, scalar),
                    crate::fixed::fp_div(v.1, scalar),
                    crate::fixed::fp_div(v.2, scalar),
                ),
            );
            i = i + 1;
        }
        proof {
            assert(out@ =~= self.spec_div_scalar(scalar));
        }
        out
    }
}

/// Element-wise arithmetic between every vector and one fixed vector.
pub trait VectorOperations<T>: Sized + View {
    /// Whether sums and products with the vector stay exact.
    spec fn vop_req(&self, vec: T) -> bool;

    /// Whether the vector may divide component-wise.
    spec fn vop_div_req(&self, vec: T) -> bool;

    /// What each operation yields.
    spec fn spec_add_vector(&self, vec: T) -> Self::V;

    spec fn spec_mul_vector(&self, vec: T) -> Self::V;

    spec fn spec_div_vector(&self, vec: T) -> Self::V;

    /// Add the vector to every element.
    fn add_vector(&self, vec: T) -> (r: Self)
        requires
            self.vop_req(vec),
        ensures
            r@ == self.spec_add_vector(vec),
    ;

    /// Multiply every element by the vector, component-wise.
    fn mul_vector(&self, vec: T) -> (r: Self)
        requires
            self.vop_req(vec),
        ensures
            r@ == self.spec_mul_vector(vec),
    ;

    /// Divide every element by the vector, component-wise.
    fn div_vector(&self, vec: T) -> (r: Self)
        requires
            self.vop_req(vec),
            self.vop_div_req(vec),
        ensures
            r@ == self.spec_div_vector(vec),
    ;
}

impl VectorOperations<(Scalar, Scalar, Scalar)> for Vec<(Scalar, Scalar, Scalar)> {
    open spec fn vop_req(&self, vec: (Scalar, Scalar, Scalar)) -> bool {
        elems3_bounded(self@, crate::fixed::COORD_LIMIT as int) && spec_abs(vec.0 as int)
            <= crate::fixed::COORD_LIMIT as int && spec_abs(vec.1 as int)
            <= crate::fixed::COORD_LIMIT as int && spec_abs(vec.2 as int)
            <= crate::fixed::COORD_LIMIT as int
    }

    open spec fn vop_div_req(&self, vec: (Scalar, Scalar, Scalar)) -> bool {
        vec.0 >= 1 && vec.1 >= 1 && vec.2 >= 1
    }

    open spec fn spec_add_vector(&self, vec: (Scalar, Scalar, Scalar)) -> Seq<
        (Scalar, Scalar, Scalar),
    > {
        self@.map_values(
            |v: (Scalar, Scalar, Scalar)|
                ((v.0 + vec.0) as i64, (v.1 + vec.1) as i64, (v.2 + vec.2) as i64),
        )
    }

    open spec fn spec_mul_vector(&self, vec: (Scalar, Scalar, Scalar)) -> Seq<
        (Scalar, Scalar, Scalar),
    > {
        self@.map_values(
            |v: (Scalar, Scalar, Scalar)|
                (
                    spec_fp_mul(v.0 as int, vec.0 as int) as i64,
                    spec_fp_mul(v.1 as int, vec.1 as int) as i64,
                    spec_fp_mul(v.2 as int, vec.2 as int) as i64,
                ),
        )
    }

    open spec fn spec_div_vector(&self, vec: (Scalar, Scalar, Scalar)) -> Seq<
        (Scalar, Scalar, Scalar),
    > {
        self@.map_values(
            |v: (Scalar, Scalar, Scalar)|
                (
                    crate::fixed::spec_fp_div(v.0 as int, vec.0 as int) as i64,
                    crate::fixed::spec_fp_div(v.1 as int, vec.1 as int) as i64,
                    crate::fixed::spec_fp_div(v.2 as int, vec.2 as int) as i64,
                ),
        )
    }

    fn add_vector(&self, vec: (Scalar, Scalar, Scalar)) -> (r: Self) {
        let mut out: Vec<(Scalar, Scalar, Scalar)> = Vec::new();
        let mut i: usize = 0;
        while i < self.len()
            invariant
                i <= self@.len(),
                self.vop_req(vec),
                out@.len() == i,
                forall|k: int|
                    0 <= k < i ==> #[trigger] out@[k] == self.spec_add_vector(vec)[k],
            decreases self@.len() - i,
        {
            let v = self[i];
            out.push((v.0 + vec.0, v.1 + vec.1, v.2 + vec.2));
            i = i + 1;
        }
        proof {
            assert(out@ =~= self.spec_add_vector(vec));
        }
        out
    }

    fn mul_vector(&self, vec: (Scalar, Scalar, Scalar)) -> (r: Self) {
        let mut out: Vec<(Scalar, Scalar, Scalar)> = Vec::new();
        let mut i: usize = 0;
        while i < self.len()
            invariant
                i <= self@.len(),
                self.vop_req(vec),
                out@.len() == i,
                forall|k: int|
                    0 <= k < i ==> #[trigger] out@[k] == self.spec_mul_vector(vec)[k],
            decreases self@.len() - i,
        {
            let v = self[i];
            proof {
                assert forall|a: int, b: int|
                    spec_abs(a) <= crate::fixed::COORD_LIMIT as int && spec_abs(b)
                        <= crate::fixed::COORD_LIMIT as int implies spec_abs(a) * spec_abs(b)
                    <= 0x1000_0000_0000_0000 * (FP_ONE as int) by {
                    vstd::arithmetic::mul::lemma_mul_upper_bound(
                        spec_abs(a),
                        crate::fixed::COORD_LIMIT as int,
                        spec_abs(b),
                        crate::fixed::COORD_LIMIT as int,
                    );
                }
                lemma_fp_mul_bound(v.0 as int, vec.0 as int, 0x1000_0000_0000_0000);
                lemma_fp_mul_bound(v.1 as int, vec.1 as int, 0x1000_0000_0000_0000);
                lemma_fp_mul_bound(v.2 as int, vec.2 as int, 0x1000_0000_0000_0000);
            }
            out.push((fp_mul(v.0, vec.0), fp_mul(v.1, vec.1), fp_mul(v.2, vec.2)));
            i = i + 1;
        }
        proof {
            assert(out@ =~= self.spec_mul_vector(vec));
        }
        out
    }

    fn div_vector(&self, vec: (Scalar, Scalar, Scalar)) -> (r: Self) {
        let mut out: Vec<(Scalar, Scalar, Scalar)> = Vec::new();
        let mut i: usize = 0;
        while i < self.len()
            invariant
                i <= self@.len(),
                self.vop_req(vec),
                self.vop_div_req(vec),
                out@.len() == i,
                forall|k: int|
                    0 <= k < i ==> #[trigger] out@[k] == self.spec_div_vector(vec)[k],
            decreases self@.len() - i,
        {
            let v = self[i];
            proof {
                lemma_trunc_div_bounds((v.0 as int) * (FP_ONE as int), vec.0 as int);
                lemma_trunc_div_bounds((v.1 as int) * (FP_ONE as int), vec.1 as int);
                lemma_trunc_div_bounds((v.2 as int) * (FP_ONE as int), vec.2 as int);
                assert forall|a: int|
                    spec_abs(a) <= crate::fixed::COORD_LIMIT as int implies #[trigger] spec_abs(
                    a * (FP_ONE as int),
                ) <= (crate::fixed::COORD_LIMIT as int) * (FP_ONE as int) by {
                    assert(spec_abs(a * (FP_ONE as int)) == spec_abs(a) * (FP_ONE as int))
                        by (nonlinear_arith);
                    vstd::arithmetic::mul::lemma_mul_upper_bound(
                        spec_abs(a),
                        crate::fixed::COORD_LIMIT as int,
                        FP_ONE as int,
                        FP_ONE as int,
                    );
                }
            }
            out.push(
                (
                    crate::fixed::fp_div(v.0, vec.0),
                    crate::fixed::fp_div(v.1, vec.1),
                    crate::fixed::fp_div(v.2, vec.2),
                ),
            );
            i = i + 1;
        }
        proof {
            assert(out@ =~= self.spec_div_vector(vec));
        }
        out
    }
}


/// The squared Euclidean length of a pair.
pub open spec fn spec_norm_sq2(v: (int, int)) -> int {
    v.0 * v.0 + v.1 * v.1
}

/// The squared Euclidean length of a quadruple.
pub open spec fn spec_norm_sq4(v: (int, int, int, int)) -> int {
    v.0 * v.0 + v.1 * v.1 + v.2 * v.2 + v.3 * v.3
}

/// Scaling a pair to unit length in fixed point, rounding toward zero.
pub open spec fn spec_normalize2(v: (int, int)) -> (int, int) {
    let n = spec_isqrt(spec_norm_sq2(v));
    if n == 0 {
        (0, 0)
    } else {
        (trunc_div(v.0 * (FP_ONE as int), n), trunc_div(v.1 * (FP_ONE as int), n))
    }
}

/// Scaling a quadruple to unit length in fixed point, rounding toward
/// zero.
pub open spec fn spec_normalize4(v: (int, int, int, int)) -> (int, int, int, int) {
    let n = spec_isqrt(spec_norm_sq4(v));
    if n == 0 {
        (0, 0, 0, 0)
    } else {
        (
            trunc_div(v.0 * (FP_ONE as int), n),
            trunc_div(v.1 * (FP_ONE as int), n),
            trunc_div(v.2 * (FP_ONE as int), n),
            trunc_div(v.3 * (FP_ONE as int), n),
        )
    }
}

/// Scale a pair to unit length in fixed point, rounding toward zero.
pub fn normalize2(v: (Scalar, Scalar)) -> (r: (Scalar, Scalar))
    requires
        spec_abs(v.0 as int) <= NORM_INPUT_LIMIT as int,
        spec_abs(v.1 as int) <= NORM_INPUT_LIMIT as int,
    ensures
        (r.0 as int, r.1 as int) == spec_normalize2((v.0 as int, v.1 as int)),
        spec_abs(r.0 as int) <= FP_ONE as int,
        spec_abs(r.1 as int) <= FP_ONE as int,
{
    let x: i128 = v.0 as i128;
    let y: i128 = v.1 as i128;
    proof {
        assert(x * x <= (NORM_INPUT_LIMIT as int) * (NORM_INPUT_LIMIT as int) && x * x >= 0)
            by (nonlinear_arith)
            requires
                spec_abs(x as int) <= NORM_INPUT_LIMIT as int,
        ;
        assert(y * y <= (NORM_INPUT_LIMIT as int) * (NORM_INPUT_LIMIT as int) && y * y >= 0)
            by (nonlinear_arith)
            requires
                spec_abs(y as int) <= NORM_INPUT_LIMIT as int,
        ;
    }
    let m: u128 = (x * x + y * y) as u128;
    let n: u128 = isqrt_u128(m);
    if n == 0 {
        (0, 0)
    } else {
        proof {
            crate::fixed::lemma_isqrt_bounds(m as int);
            assert(spec_abs(x as int) <= n as int && spec_abs(y as int) <= n as int)
                by (nonlinear_arith)
                requires
                    (x as int) * (x as int) + (y as int) * (y as int) < ((n as int) + 1) * ((
                    n as int) + 1),
                    (x as int) * (x as int) >= 0,
                    (y as int) * (y as int) >= 0,
                    n as int >= 1,
            ;
            lemma_normalize_component(x as int, n as int);
            lemma_normalize_component(y as int, n as int);
        }
        let rx: i128 = crate::fixed::trunc_div_i128(x * (FP_ONE as i128), n as i128);
        let ry: i128 = crate::fixed::trunc_div_i128(y * (FP_ONE as i128), n as i128);
        (rx as i64, ry as i64)
    }
}

/// Scale a quadruple to unit length in fixed point, rounding toward
/// zero.
pub fn normalize4(v: (Scalar, Scalar, Scalar, Scalar)) -> (r: (Scalar, Scalar, Scalar, Scalar))
    requires
        spec_abs(v.0 as int) <= NORM_INPUT_LIMIT as int,
        spec_abs(v.1 as int) <= NORM_INPUT_LIMIT as int,
        spec_abs(v.2 as int) <= NORM_INPUT_LIMIT as int,
        spec_abs(v.3 as int) <= NORM_INPUT_LIMIT as int,
    ensures
        (r.0 as int, r.1 as int, r.2 as int, r.3 as int) == spec_normalize4(
            (v.0 as int, v.1 as int, v.2 as int, v.3 as int),
        ),
        spec_abs(r.0 as int) <= FP_ONE as int,
        spec_abs(r.1 as int) <= FP_ONE as int,
        spec_abs(r.2 as int) <= FP_ONE as int,
        spec_abs(r.3 as int) <= FP_ONE as int,
{
    let x: i128 = v.0 as i128;
    let y: i128 = v.1 as i128;
    let z: i128 = v.2 as i128;
    let w: i128 = v.3 as i128;
    proof {
        assert(x * x <= (NORM_INPUT_LIMIT as int) * (NORM_INPUT_LIMIT as int) && x * x >= 0)
            by (nonlinear_arith)
            requires
                spec_abs(x as int) <= NORM_INPUT_LIMIT as int,
        ;
        assert(y * y <= (NORM_INPUT_LIMIT as int) * (NORM_INPUT_LIMIT as int) && y * y >= 0)
            by (nonlinear_arith)
            requires
                spec_abs(y as int) <= NORM_INPUT_LIMIT as int,
        ;
        assert(z * z <= (NORM_INPUT_LIMIT as int) * (NORM_INPUT_LIMIT as int) && z * z >= 0)
            by (nonlinear_arith)
            requires
                spec_abs(z as int) <= NORM_INPUT_LIMIT as int,
        ;
        assert(w * w <= (NORM_INPUT_LIMIT as int) * (NORM_INPUT_LIMIT as int) && w * w >= 0)
            by (nonlinear_arith)
            requires
                spec_abs(w as int) <= NORM_INPUT_LIMIT as int,
        ;
    }
    let m: u128 = (x * x + y * y + z * z + w * w) as u128;
    let n: u128 = isqrt_u128(m);
    if n == 0 {
        (0, 0, 0, 0)
    } else {
        proof {
            crate::fixed::lemma_isqrt_bounds(m as int);
            assert(spec_abs(x as int) <= n as int && spec_abs(y as int) <= n as int && spec_abs(
                z as int,
            ) <= n as int && spec_abs(w as int) <= n as int) by (nonlinear_arith)
                requires
                    (x as int) * (x as int) + (y as int) * (y as int) + (z as int) * (z as int) + (
                    w as int) * (w as int) < ((n as int) + 1) * ((n as int) + 1),
                    (x as int) * (x as int) >= 0,
                    (y as int) * (y as int) >= 0,
                    (z as int) * (z as int) >= 0,
                    (w as int) * (w as int) >= 0,
                    n as int >= 1,
            ;
            lemma_normalize_component(x as int, n as int);
            lemma_normalize_component(y as int, n as int);
            lemma_normalize_component(z as int, n as int);
            lemma_normalize_component(w as int, n as int);
        }
        let rx: i128 = crate::fixed::trunc_div_i128(x * (FP_ONE as i128), n as i128);
        let ry: i128 = crate::fixed::trunc_div_i128(y * (FP_ONE as i128), n as i128);
        let rz: i128 = crate::fixed::trunc_div_i128(z * (FP_ONE as i128), n as i128);
        let rw: i128 = crate::fixed::trunc_div_i128(w * (FP_ONE as i128), n as i128);
        (rx as i64, ry as i64, rz as i64, rw as i64)
    }
}


/// Fixed-point homogeneous matrix-vector application, one rounded
/// product per entry.
pub open spec fn spec_mat4_mul_vec4(m: Mat4, v: (int, int, int, int)) -> (int, int, int, int) {
    (
        spec_fp_mul(m.r0.0 as int, v.0) + spec_fp_mul(m.r0.1 as int, v.1) + spec_fp_mul(m.r0.2 as int, v.2) + spec_fp_mul(m.r0.3 as int, v.3),
        spec_fp_mul(m.r1.0 as int, v.0) + spec_fp_mul(m.r1.1 as int, v.1) + spec_fp_mul(m.r1.2 as int, v.2) + spec_fp_mul(m.r1.3 as int, v.3),
        spec_fp_mul(m.r2.0 as int, v.0) + spec_fp_mul(m.r2.1 as int, v.1) + spec_fp_mul(m.r2.2 as int, v.2) + spec_fp_mul(m.r2.3 as int, v.3),
        spec_fp_mul(m.r3.0 as int, v.0) + spec_fp_mul(m.r3.1 as int, v.1) + spec_fp_mul(m.r3.2 as int, v.2) + spec_fp_mul(m.r3.3 as int, v.3),
    )
}

/// Every product of a transform entry with a vector component stays
/// under the term cap.
pub open spec fn mat4_vec4_in_range(m: Mat4, v: (int, int, int, int)) -> bool {
    &&& spec_abs(m.r0.0 as int) * spec_abs(v.0) <= MAT_TERM_LIMIT as int * (FP_ONE as int)
    &&& spec_abs(m.r0.1 as int) * spec_abs(v.1) <= MAT_TERM_LIMIT as int * (FP_ONE as int)
    &&& spec_abs(m.r0.2 as int) * spec_abs(v.2) <= MAT_TERM_LIMIT as int * (FP_ONE as int)
    &&& spec_abs(m.r0.3 as int) * spec_abs(v.3) <= MAT_TERM_LIMIT as int * (FP_ONE as int)
    &&& spec_abs(m.r1.0 as int) * spec_abs(v.0) <= MAT_TERM_LIMIT as int * (FP_ONE as int)
    &&& spec_abs(m.r1.1 as int) * spec_abs(v.1) <= MAT_TERM_LIMIT as int * (FP_ONE as int)
    &&& spec_abs(m.r1.2 as int) * spec_abs(v.2) <= MAT_TERM_LIMIT as int * (FP_ONE as int)
    &&& spec_abs(m.r1.3 as int) * spec_abs(v.3) <= MAT_TERM_LIMIT as int * (FP_ONE as int)
    &&& spec_abs(m.r2.0 as int) * spec_abs(v.0) <= MAT_TERM_LIMIT as int * (FP_ONE as int)
    &&& spec_abs(m.r2.1 as int) * spec_abs(v.1) <= MAT_TERM_LIMIT as int * (FP_ONE as int)
    &&& spec_abs(m.r2.2 as int) * spec_abs(v.2) <= MAT_TERM_LIMIT as int * (FP_ONE as int)
    &&& spec_abs(m.r2.3 as int) * spec_abs(v.3) <= MAT_TERM_LIMIT as int * (FP_ONE as int)
    &&& spec_abs(m.r3.0 as int) * spec_abs(v.0) <= MAT_TERM_LIMIT as int * (FP_ONE as int)
    &&& spec_abs(m.r3.1 as int) * spec_abs(v.1) <= MAT_TERM_LIMIT as int * (FP_ONE as int)
    &&& spec_abs(m.r3.2 as int) * spec_abs(v.2) <= MAT_TERM_LIMIT as int * (FP_ONE as int)
    &&& spec_abs(m.r3.3 as int) * spec_abs(v.3) <= MAT_TERM_LIMIT as int * (FP_ONE as int)
}

/// Apply a fixed-point homogeneous matrix to a vector, rounding each
/// product.
pub fn mat4_mul_vec4(m: &Mat4, v: (Scalar, Scalar, Scalar, Scalar)) -> (r: (
    Scalar,
    Scalar,
    Scalar,
    Scalar,
))
    requires
        mat4_vec4_in_range(*m, (v.0 as int, v.1 as int, v.2 as int, v.3 as int)),
    ensures
        (r.0 as int, r.1 as int, r.2 as int, r.3 as int) == spec_mat4_mul_vec4(
            *m,
            (v.0 as int, v.1 as int, v.2 as int, v.3 as int),
        ),
        spec_abs(r.0 as int) <= 4 * (MAT_TERM_LIMIT as int),
        spec_abs(r.1 as int) <= 4 * (MAT_TERM_LIMIT as int),
        spec_abs(r.2 as int) <= 4 * (MAT_TERM_LIMIT as int),
        spec_abs(r.3 as int) <= 4 * (MAT_TERM_LIMIT as int),
{
    proof {
        lemma_fp_mul_bound(m.r0.0 as int, v.0 as int, MAT_TERM_LIMIT as int);
        lemma_fp_mul_bound(m.r0.1 as int, v.1 as int, MAT_TERM_LIMIT as int);
        lemma_fp_mul_bound(m.r0.2 as int, v.2 as int, MAT_TERM_LIMIT as int);
        lemma_fp_mul_bound(m.r0.3 as int, v.3 as int, MAT_TERM_LIMIT as int);
        lemma_fp_mul_bound(m.r1.0 as int, v.0 as int, MAT_TERM_LIMIT as int);
        lemma_fp_mul_bound(m.r1.1 as int, v.1 as int, MAT_TERM_LIMIT as int);
        lemma_fp_mul_bound(m.r1.2 as int, v.2 as int, MAT_TERM_LIMIT as int);
        lemma_fp_mul_bound(m.r1.3 as int, v.3 as int, MAT_TERM_LIMIT as int);
        lemma_fp_mul_bound(m.r2.0 as int, v.0 as int, MAT_TERM_LIMIT as int);
        lemma_fp_mul_bound(m.r2.1 as int, v.1 as int, MAT_TERM_LIMIT as int);
        lemma_fp_mul_bound(m.r2.2 as int, v.2 as int, MAT_TERM_LIMIT as int);
        lemma_fp_mul_bound(m.r2.3 as int, v.3 as int, MAT_TERM_LIMIT as int);
        lemma_fp_mul_bound(m.r3.0 as int, v.0 as int, MAT_TERM_LIMIT as int);
        lemma_fp_mul_bound(m.r3.1 as int, v.1 as int, MAT_TERM_LIMIT as int);
        lemma_fp_mul_bound(m.r3.2 as int, v.2 as int, MAT_TERM_LIMIT as int);
        lemma_fp_mul_bound(m.r3.3 as int, v.3 as int, MAT_TERM_LIMIT as int);
    }
    let s0: i64 = fp_mul(m.r0.0, v.0) + fp_mul(m.r0.1, v.1) + fp_mul(m.r0.2, v.2) + fp_mul(m.r0.3, v.3);
    let s1: i64 = fp_mul(m.r1.0, v.0) + fp_mul(m.r1.1, v.1) + fp_mul(m.r1.2, v.2) + fp_mul(m.r1.3, v.3);
    let s2: i64 = fp_mul(m.r2.0, v.0) + fp_mul(m.r2.1, v.1) + fp_mul(m.r2.2, v.2) + fp_mul(m.r2.3, v.3);
    let s3: i64 = fp_mul(m.r3.0, v.0) + fp_mul(m.r3.1, v.1) + fp_mul(m.r3.2, v.2) + fp_mul(m.r3.3, v.3);
    (s0, s1, s2, s3)
}

/// Every component of every pair within the given magnitude.
pub open spec fn elems2_bounded(s: Seq<(Scalar, Scalar)>, cap: int) -> bool {
    forall|k: int|
        0 <= k < s.len() ==> spec_abs((#[trigger] s[k]).0 as int) <= cap && spec_abs(
            s[k].1 as int,
        ) <= cap
}

/// Every component of every quadruple within the given magnitude.
pub open spec fn elems4_bounded(s: Seq<(Scalar, Scalar, Scalar, Scalar)>, cap: int) -> bool {
    forall|k: int|
        0 <= k < s.len() ==> spec_abs((#[trigger] s[k]).0 as int) <= cap && spec_abs(
            s[k].1 as int,
        ) <= cap && spec_abs(s[k].2 as int) <= cap && spec_abs(s[k].3 as int) <= cap
}


impl ScalarOperations<Scalar> for Vec<(Scalar, Scalar)> {
    open spec fn sop_req(&self, scalar: Scalar) -> bool {
        elems2_bounded(self@, crate::fixed::COORD_LIMIT as int) && spec_abs(scalar as int)
            <= crate::fixed::COORD_LIMIT as int
    }

    open spec fn sop_div_req(&self, scalar: Scalar) -> bool {
        scalar >= 1
    }

    open spec fn spec_add_scalar(&self, scalar: Scalar) -> Seq<(Scalar, Scalar)> {
        self@.map_values(|v: (Scalar, Scalar)| ((v.0 + scalar) as i64, (v.1 + scalar) as i64))
    }

    open spec fn spec_sub_scalar(&self, scalar: Scalar) -> Seq<(Scalar, Scalar)> {
        self@.map_values(|v: (Scalar, Scalar)| ((v.0 - scalar) as i64, (v.1 - scalar) as i64))
    }

    open spec fn spec_mul_scalar(&self, scalar: Scalar) -> Seq<(Scalar, Scalar)> {
        self@.map_values(|v: (Scalar, Scalar)| (spec_fp_mul(v.0 as int, scalar as int) as i64, spec_fp_mul(v.1 as int, scalar as int) as i64))
    }

    open spec fn spec_div_scalar(&self, scalar: Scalar) -> Seq<(Scalar, Scalar)> {
        self@.map_values(|v: (Scalar, Scalar)| (crate::fixed::spec_fp_div(v.0 as int, scalar as int) as i64, crate::fixed::spec_fp_div(v.1 as int, scalar as int) as i64))
    }

    fn add_scalar(&self, scalar: Scalar) -> (r: Self) {
        let mut out: Vec<(Scalar, Scalar)> = Vec::new();
        let mut i: usize = 0;
        while i < self.len()
            invariant
                i <= self@.len(),
                self.sop_req(scalar),
                out@.len() == i,
                forall|k: int|
                    0 <= k < i ==> #[trigger] out@[k] == self.spec_add_scalar(scalar)[k],
            decreases self@.len() - i,
        {
            let v = self[i];
            out.push((v.0 + scalar, v.1 + scalar));
            i = i + 1;
        }
        proof {
            assert(out@ =~= self.spec_add_scalar(scalar));
        }
        out
    }

    fn sub_scalar(&self, scalar: Scalar) -> (r: Self) {
        let mut out: Vec<(Scalar, Scalar)> = Vec::new();
        let mut i: usize = 0;
        while i < self.len()
            invariant
                i <= self@.len(),
                self.sop_req(scalar),
                out@.len() == i,
                forall|k: int|
                    0 <= k < i ==> #[trigger] out@[k] == self.spec_sub_scalar(scalar)[k],
            decreases self@.len() - i,
        {
            let v = self[i];
            out.push((v.0 - scalar, v.1 - scalar));
            i = i + 1;
        }
        proof {
            assert(out@ =~= self.spec_sub_scalar(scalar));
        }
        out
    }

    fn mul_scalar(&self, scalar: Scalar) -> (r: Self) {
        let mut out: Vec<(Scalar, Scalar)> = Vec::new();
        let mut i: usize = 0;
        while i < self.len()
            invariant
                i <= self@.len(),
                self.sop_req(scalar),
                out@.len() == i,
                forall|k: int|
                    0 <= k < i ==> #[trigger] out@[k] == self.spec_mul_scalar(scalar)[k],
            decreases self@.len() - i,
        {
            let v = self[i];
            proof {
                assert forall|a: int, b: int|
                    spec_abs(a) <= crate::fixed::COORD_LIMIT as int && spec_abs(b)
                        <= crate::fixed::COORD_LIMIT as int implies spec_abs(a) * spec_abs(b)
                    <= 0x1000_0000_0000_0000 * (FP_ONE as int) by {
                    vstd::arithmetic::mul::lemma_mul_upper_bound(
                        spec_abs(a),
                        crate::fixed::COORD_LIMIT as int,
                        spec_abs(b),
                        crate::fixed::COORD_LIMIT as int,
                    );
                }
                lemma_fp_mul_bound(v.0 as int, scalar as int, 0x1000_0000_0000_0000);
                lemma_fp_mul_bound(v.1 as int, scalar as int, 0x1000_0000_0000_0000);
            }
            out.push((fp_mul(v.0, scalar), fp_mul(v.1, scalar)));
            i = i + 1;
        }
        proof {
            assert(out@ =~= self.spec_mul_scalar(scalar));
        }
        out
    }

    fn div_scalar(&self, scalar: Scalar) -> (r: Self) {
        let mut out: Vec<(Scalar, Scalar)> = Vec::new();
        let mut i: usize = 0;
        while i < self.len()
            invariant
                i <= self@.len(),
                self.sop_req(scalar),
                self.sop_div_req(scalar),
                out@.len() == i,
                forall|k: int|
                    0 <= k < i ==> #[trigger] out@[k] == self.spec_div_scalar(scalar)[k],
            decreases self@.len() - i,
        {
            let v = self[i];
            proof {
                assert forall|a: int|
                    spec_abs(a) <= crate::fixed::COORD_LIMIT as int implies #[trigger] spec_abs(
                    a * (FP_ONE as int),
                ) <= (crate::fixed::COORD_LIMIT as int) * (FP_ONE as int) by {
                    assert(spec_abs(a * (FP_ONE as int)) == spec_abs(a) * (FP_ONE as int))
                        by (nonlinear_arith);
                    vstd::arithmetic::mul::lemma_mul_upper_bound(
                        spec_abs(a),
                        crate::fixed::COORD_LIMIT as int,
                        FP_ONE as int,
                        FP_ONE as int,
                    );
                }
                lemma_trunc_div_bounds((v.0 as int) * (FP_ONE as int), scalar as int);
                lemma_trunc_div_bounds((v.1 as int) * (FP_ONE as int), scalar as int);
            }
            out.push((crate::fixed::fp_div(v.0, scalar), crate::fixed::fp_div(v.1, scalar)));
            i = i + 1;
        }
        proof {
            assert(out@ =~= self.spec_div_scalar(scalar));
        }
        out
    }
}


impl VectorOperations<(Scalar, Scalar)> for Vec<(Scalar, Scalar)> {
    open spec fn vop_req(&self, vec: (Scalar, Scalar)) -> bool {
        elems2_bounded(self@, crate::fixed::COORD_LIMIT as int) && spec_abs(vec.0 as int) <= crate::fixed::COORD_LIMIT as int && spec_abs(vec.1 as int) <= crate::fixed::COORD_LIMIT as int
    }

    open spec fn vop_div_req(&self, vec: (Scalar, Scalar)) -> bool {
        vec.0 >= 1 && vec.1 >= 1
    }

    open spec fn spec_add_vector(&self, vec: (Scalar, Scalar)) -> Seq<(Scalar, Scalar)> {
        self@.map_values(|v: (Scalar, Scalar)| ((v.0 + vec.0) as i64, (v.1 + vec.1) as i64))
    }

    open spec fn spec_mul_vector(&self, vec: (Scalar, Scalar)) -> Seq<(Scalar, Scalar)> {
        self@.map_values(|v: (Scalar, Scalar)| (spec_fp_mul(v.0 as int, vec.0 as int) as i64, spec_fp_mul(v.1 as int, vec.1 as int) as i64))
    }

    open spec fn spec_div_vector(&self, vec: (Scalar, Scalar)) -> Seq<(Scalar, Scalar)> {
        self@.map_values(|v: (Scalar, Scalar)| (crate::fixed::spec_fp_div(v.0 as int, vec.0 as int) as i64, crate::fixed::spec_fp_div(v.1 as int, vec.1 as int) as i64))
    }

    fn add_vector(&self, vec: (Scalar, Scalar)) -> (r: Self) {
        let mut out: Vec<(Scalar, Scalar)> = Vec::new();
        let mut i: usize = 0;
        while i < self.len()
            invariant
                i <= self@.len(),
                self.vop_req(vec),
                out@.len() == i,
                forall|k: int|
                    0 <= k < i ==> #[trigger] out@[k] == self.spec_add_vector(vec)[k],
            decreases self@.len() - i,
        {
            let v = self[i];
            out.push((v.0 + vec.0, v.1 + vec.1));
            i = i + 1;
        }
        proof {
            assert(out@ =~= self.spec_add_vector(vec));
        }
        out
    }

    fn mul_vector(&self, vec: (Scalar, Scalar)) -> (r: Self) {
        let mut out: Vec<(Scalar, Scalar)> = Vec::new();
        let mut i: usize = 0;
        while i < self.len()
            invariant
                i <= self@.len(),
                self.vop_req(vec),
                out@.len() == i,
                forall|k: int|
                    0 <= k < i ==> #[trigger] out@[k] == self.spec_mul_vector(vec)[k],
            decreases self@.len() - i,
        {
            let v = self[i];
            proof {
                assert forall|a: int, b: int|
                    spec_abs(a) <= crate::fixed::COORD_LIMIT as int && spec_abs(b)
                        <= crate::fixed::COORD_LIMIT as int implies spec_abs(a) * spec_abs(b)
                    <= 0x1000_0000_0000_0000 * (FP_ONE as int) by {
                    vstd::arithmetic::mul::lemma_mul_upper_bound(
                        spec_abs(a),
                        crate::fixed::COORD_LIMIT as int,
                        spec_abs(b),
                        crate::fixed::COORD_LIMIT as int,
                    );
                }
                lemma_fp_mul_bound(v.0 as int, vec.0 as int, 0x1000_0000_0000_0000);
                lemma_fp_mul_bound(v.1 as int, vec.1 as int, 0x1000_0000_0000_0000);
            }
            out.push((fp_mul(v.0, vec.0), fp_mul(v.1, vec.1)));
            i = i + 1;
        }
        proof {
            assert(out@ =~= self.spec_mul_vector(vec));
        }
        out
    }

    fn div_vector(&self, vec: (Scalar, Scalar)) -> (r: Self) {
        let mut out: Vec<(Scalar, Scalar)> = Vec::new();
        let mut i: usize = 0;
        while i < self.len()
            invariant
                i <= self@.len(),
                self.vop_req(vec),
                self.vop_div_req(vec),
                out@.len() == i,
                forall|k: int|
                    0 <= k < i ==> #[trigger] out@[k] == self.spec_div_vector(vec)[k],
            decreases self@.len() - i,
        {
            let v = self[i];
            proof {
                assert forall|a: int|
                    spec_abs(a) <= crate::fixed::COORD_LIMIT as int implies #[trigger] spec_abs(
                    a * (FP_ONE as int),
                ) <= (crate::fixed::COORD_LIMIT as int) * (FP_ONE as int) by {
                    assert(spec_abs(a * (FP_ONE as int)) == spec_abs(a) * (FP_ONE as int))
                        by (nonlinear_arith);
                    vstd::arithmetic::mul::lemma_mul_upper_bound(
                        spec_abs(a),
                        crate::fixed::COORD_LIMIT as int,
                        FP_ONE as int,
                        FP_ONE as int,
                    );
                }
                lemma_trunc_div_bounds((v.0 as int) * (FP_ONE as int), vec.0 as int);
                lemma_trunc_div_bounds((v.1 as int) * (FP_ONE as int), vec.1 as int);
            }
            out.push((crate::fixed::fp_div(v.0, vec.0), crate::fixed::fp_div(v.1, vec.1)));
            i = i + 1;
        }
        proof {
            assert(out@ =~= self.spec_div_vector(vec));
        }
        out
    }
}


impl ScalarOperations<Scalar> for Vec<(Scalar, Scalar, Scalar, Scalar)> {
    open spec fn sop_req(&self, scalar: Scalar) -> bool {
        elems4_bounded(self@, crate::fixed::COORD_LIMIT as int) && spec_abs(scalar as int)
            <= crate::fixed::COORD_LIMIT as int
    }

    open spec fn sop_div_req(&self, scalar: Scalar) -> bool {
        scalar >= 1
    }

    open spec fn spec_add_scalar(&self, scalar: Scalar) -> Seq<(Scalar, Scalar, Scalar, Scalar)> {
        self@.map_values(|v: (Scalar, Scalar, Scalar, Scalar)| ((v.0 + scalar) as i64, (v.1 + scalar) as i64, (v.2 + scalar) as i64, (v.3 + scalar) as i64))
    }

    open spec fn spec_sub_scalar(&self, scalar: Scalar) -> Seq<(Scalar, Scalar, Scalar, Scalar)> {
        self@.map_values(|v: (Scalar, Scalar, Scalar, Scalar)| ((v.0 - scalar) as i64, (v.1 - scalar) as i64, (v.2 - scalar) as i64, (v.3 - scalar) as i64))
    }

    open spec fn spec_mul_scalar(&self, scalar: Scalar) -> Seq<(Scalar, Scalar, Scalar, Scalar)> {
        self@.map_values(|v: (Scalar, Scalar, Scalar, Scalar)| (spec_fp_mul(v.0 as int, scalar as int) as i64, spec_fp_mul(v.1 as int, scalar as int) as i64, spec_fp_mul(v.2 as int, scalar as int) as i64, spec_fp_mul(v.3 as int, scalar as int) as i64))
    }

    open spec fn spec_div_scalar(&self, scalar: Scalar) -> Seq<(Scalar, Scalar, Scalar, Scalar)> {
        self@.map_values(|v: (Scalar, Scalar, Scalar, Scalar)| (crate::fixed::spec_fp_div(v.0 as int, scalar as int) as i64, crate::fixed::spec_fp_div(v.1 as int, scalar as int) as i64, crate::fixed::spec_fp_div(v.2 as int, scalar as int) as i64, crate::fixed::spec_fp_div(v.3 as int, scalar as int) as i64))
    }

    fn add_scalar(&self, scalar: Scalar) -> (r: Self) {
        let mut out: Vec<(Scalar, Scalar, Scalar, Scalar)> = Vec::new();
        let mut i: usize = 0;
        while i < self.len()
            invariant
                i <= self@.len(),
                self.sop_req(scalar),
                out@.len() == i,
                forall|k: int|
                    0 <= k < i ==> #[trigger] out@[k] == self.spec_add_scalar(scalar)[k],
            decreases self@.len() - i,
        {
            let v = self[i];
            out.push((v.0 + scalar, v.1 + scalar, v.2 + scalar, v.3 + scalar));
            i = i + 1;
        }
        proof {
            assert(out@ =~= self.spec_add_scalar(scalar));
        }
        out
    }

    fn sub_scalar(&self, scalar: Scalar) -> (r: Self) {
        let mut out: Vec<(Scalar, Scalar, Scalar, Scalar)> = Vec::new();
        let mut i: usize = 0;
        while i < self.len()
            invariant
                i <= self@.len(),
                self.sop_req(scalar),
                out@.len() == i,
                forall|k: int|
                    0 <= k < i ==> #[trigger] out@[k] == self.spec_sub_scalar(scalar)[k],
            decreases self@.len() - i,
        {
            let v = self[i];
            out.push((v.0 - scalar, v.1 - scalar, v.2 - scalar, v.3 - scalar));
            i = i + 1;
        }
        proof {
            assert(out@ =~= self.spec_sub_scalar(scalar));
        }
        out
    }

    fn mul_scalar(&self, scalar: Scalar) -> (r: Self) {
        let mut out: Vec<(Scalar, Scalar, Scalar, Scalar)> = Vec::new();
        let mut i: usize = 0;
        while i < self.len()
            invariant
                i <= self@.len(),
                self.sop_req(scalar),
                out@.len() == i,
                forall|k: int|
                    0 <= k < i ==> #[trigger] out@[k] == self.spec_mul_scalar(scalar)[k],
            decreases self@.len() - i,
        {
            let v = self[i];
            proof {
                assert forall|a: int, b: int|
                    spec_abs(a) <= crate::fixed::COORD_LIMIT as int && spec_abs(b)
                        <= crate::fixed::COORD_LIMIT as int implies spec_abs(a) * spec_abs(b)
                    <= 0x1000_0000_0000_0000 * (FP_ONE as int) by {
                    vstd::arithmetic::mul::lemma_mul_upper_bound(
                        spec_abs(a),
                        crate::fixed::COORD_LIMIT as int,
                        spec_abs(b),
                        crate::fixed::COORD_LIMIT as int,
                    );
                }
                lemma_fp_mul_bound(v.0 as int, scalar as int, 0x1000_0000_0000_0000);
                lemma_fp_mul_bound(v.1 as int, scalar as int, 0x1000_0000_0000_0000);
                lemma_fp_mul_bound(v.2 as int, scalar as int, 0x1000_0000_0000_0000);
                lemma_fp_mul_bound(v.3 as int, scalar as int, 0x1000_0000_0000_0000);
            }
            out.push((fp_mul(v.0, scalar), fp_mul(v.1, scalar), fp_mul(v.2, scalar), fp_mul(v.3, scalar)));
            i = i + 1;
        }
        proof {
            assert(out@ =~= self.spec_mul_scalar(scalar));
        }
        out
    }

    fn div_scalar(&self, scalar: Scalar) -> (r: Self) {
        let mut out: Vec<(Scalar, Scalar, Scalar, Scalar)> = Vec::new();
        let mut i: usize = 0;
        while i < self.len()
            invariant
                i <= self@.len(),
                self.sop_req(scalar),
                self.sop_div_req(scalar),
                out@.len() == i,
                forall|k: int|
                    0 <= k < i ==> #[trigger] out@[k] == self.spec_div_scalar(scalar)[k],
            decreases self@.len() - i,
        {
            let v = self[i];
            proof {
                assert forall|a: int|
                    spec_abs(a) <= crate::fixed::COORD_LIMIT as int implies #[trigger] spec_abs(
                    a * (FP_ONE as int),
                ) <= (crate::fixed::COORD_LIMIT as int) * (FP_ONE as int) by {
                    assert(spec_abs(a * (FP_ONE as int)) == spec_abs(a) * (FP_ONE as int))
                        by (nonlinear_arith);
                    vstd::arithmetic::mul::lemma_mul_upper_bound(
                        spec_abs(a),
                        crate::fixed::COORD_LIMIT as int,
                        FP_ONE as int,
                        FP_ONE as int,
                    );
                }
                lemma_trunc_div_bounds((v.0 as int) * (FP_ONE as int), scalar as int);
                lemma_trunc_div_bounds((v.1 as int) * (FP_ONE as int), scalar as int);
                lemma_trunc_div_bounds((v.2 as int) * (FP_ONE as int), scalar as int);
                lemma_trunc_div_bounds((v.3 as int) * (FP_ONE as int), scalar as int);
            }
            out.push((crate::fixed::fp_div(v.0, scalar), crate::fixed::fp_div(v.1, scalar), crate::fixed::fp_div(v.2, scalar), crate::fixed::fp_div(v.3, scalar)));
            i = i + 1;
        }
        proof {
            assert(out@ =~= self.spec_div_scalar(scalar));
        }
        out
    }
}


impl VectorOperations<(Scalar, Scalar, Scalar, Scalar)> for Vec<(Scalar, Scalar, Scalar, Scalar)> {
    open spec fn vop_req(&self, vec: (Scalar, Scalar, Scalar, Scalar)) -> bool {
        elems4_bounded(self@, crate::fixed::COORD_LIMIT as int) && spec_abs(vec.0 as int) <= crate::fixed::COORD_LIMIT as int && spec_abs(vec.1 as int) <= crate::fixed::COORD_LIMIT as int && spec_abs(vec.2 as int) <= crate::fixed::COORD_LIMIT as int && spec_abs(vec.3 as int) <= crate::fixed::COORD_LIMIT as int
    }

    open spec fn vop_div_req(&self, vec: (Scalar, Scalar, Scalar, Scalar)) -> bool {
        vec.0 >= 1 && vec.1 >= 1 && vec.2 >= 1 && vec.3 >= 1
    }

    open spec fn spec_add_vector(&self, vec: (Scalar, Scalar, Scalar, Scalar)) -> Seq<(Scalar, Scalar, Scalar, Scalar)> {
        self@.map_values(|v: (Scalar, Scalar, Scalar, Scalar)| ((v.0 + vec.0) as i64, (v.1 + vec.1) as i64, (v.2 + vec.2) as i64, (v.3 + vec.3) as i64))
    }

    open spec fn spec_mul_vector(&self, vec: (Scalar, Scalar, Scalar, Scalar)) -> Seq<(Scalar, Scalar, Scalar, Scalar)> {
        self@.map_values(|v: (Scalar, Scalar, Scalar, Scalar)| (spec_fp_mul(v.0 as int, vec.0 as int) as i64, spec_fp_mul(v.1 as int, vec.1 as int) as i64, spec_fp_mul(v.2 as int, vec.2 as int) as i64, spec_fp_mul(v.3 as int, vec.3 as int) as i64))
    }

    open spec fn spec_div_vector(&self, vec: (Scalar, Scalar, Scalar, Scalar)) -> Seq<(Scalar, Scalar, Scalar, Scalar)> {
        self@.map_values(|v: (Scalar, Scalar, Scalar, Scalar)| (crate::fixed::spec_fp_div(v.0 as int, vec.0 as int) as i64, crate::fixed::spec_fp_div(v.1 as int, vec.1 as int) as i64, crate::fixed::spec_fp_div(v.2 as int, vec.2 as int) as i64, crate::fixed::spec_fp_div(v.3 as int, vec.3 as int) as i64))
    }

    fn add_vector(&self, vec: (Scalar, Scalar, Scalar, Scalar)) -> (r: Self) {
        let mut out: Vec<(Scalar, Scalar, Scalar, Scalar)> = Vec::new();
        let mut i: usize = 0;
        while i < self.len()
            invariant
                i <= self@.len(),
                self.vop_req(vec),
                out@.len() == i,
                forall|k: int|
                    0 <= k < i ==> #[trigger] out@[k] == self.spec_add_vector(vec)[k],
            decreases self@.len() - i,
        {
            let v = self[i];
            out.push((v.0 + vec.0, v.1 + vec.1, v.2 + vec.2, v.3 + vec.3));
            i = i + 1;
        }
        proof {
            assert(out@ =~= self.spec_add_vector(vec));
        }
        out
    }

    fn mul_vector(&self, vec: (Scalar, Scalar, Scalar, Scalar)) -> (r: Self) {
        let mut out: Vec<(Scalar, Scalar, Scalar, Scalar)> = Vec::new();
        let mut i: usize = 0;
        while i < self.len()
            invariant
                i <= self@.len(),
                self.vop_req(vec),
                out@.len() == i,
                forall|k: int|
                    0 <= k < i ==> #[trigger] out@[k] == self.spec_mul_vector(vec)[k],
            decreases self@.len() - i,
        {
            let v = self[i];
            proof {
                assert forall|a: int, b: int|
                    spec_abs(a) <= crate::fixed::COORD_LIMIT as int && spec_abs(b)
                        <= crate::fixed::COORD_LIMIT as int implies spec_abs(a) * spec_abs(b)
                    <= 0x1000_0000_0000_0000 * (FP_ONE as int) by {
                    vstd::arithmetic::mul::lemma_mul_upper_bound(
                        spec_abs(a),
                        crate::fixed::COORD_LIMIT as int,
                        spec_abs(b),
                        crate::fixed::COORD_LIMIT as int,
                    );
                }
                lemma_fp_mul_bound(v.0 as int, vec.0 as int, 0x1000_0000_0000_0000);
                lemma_fp_mul_bound(v.1 as int, vec.1 as int, 0x1000_0000_0000_0000);
                lemma_fp_mul_bound(v.2 as int, vec.2 as int, 0x1000_0000_0000_0000);
                lemma_fp_mul_bound(v.3 as int, vec.3 as int, 0x1000_0000_0000_0000);
            }
            out.push((fp_mul(v.0, vec.0), fp_mul(v.1, vec.1), fp_mul(v.2, vec.2), fp_mul(v.3, vec.3)));
            i = i + 1;
        }
        proof {
            assert(out@ =~= self.spec_mul_vector(vec));
        }
        out
    }

    fn div_vector(&self, vec: (Scalar, Scalar, Scalar, Scalar)) -> (r: Self) {
        let mut out: Vec<(Scalar, Scalar, Scalar, Scalar)> = Vec::new();
        let mut i: usize = 0;
        while i < self.len()
            invariant
                i <= self@.len(),
                self.vop_req(vec),
                self.vop_div_req(vec),
                out@.len() == i,
                forall|k: int|
                    0 <= k < i ==> #[trigger] out@[k] == self.spec_div_vector(vec)[k],
            decreases self@.len() - i,
        {
            let v = self[i];
            proof {
                assert forall|a: int|
                    spec_abs(a) <= crate::fixed::COORD_LIMIT as int implies #[trigger] spec_abs(
                    a * (FP_ONE as int),
                ) <= (crate::fixed::COORD_LIMIT as int) * (FP_ONE as int) by {
                    assert(spec_abs(a * (FP_ONE as int)) == spec_abs(a) * (FP_ONE as int))
                        by (nonlinear_arith);
                    vstd::arithmetic::mul::lemma_mul_upper_bound(
                        spec_abs(a),
                        crate::fixed::COORD_LIMIT as int,
                        FP_ONE as int,
                        FP_ONE as int,
                    );
                }
                lemma_trunc_div_bounds((v.0 as int) * (FP_ONE as int), vec.0 as int);
                lemma_trunc_div_bounds((v.1 as int) * (FP_ONE as int), vec.1 as int);
                lemma_trunc_div_bounds((v.2 as int) * (FP_ONE as int), vec.2 as int);
                lemma_trunc_div_bounds((v.3 as int) * (FP_ONE as int), vec.3 as int);
            }
            out.push((crate::fixed::fp_div(v.0, vec.0), crate::fixed::fp_div(v.1, vec.1), crate::fixed::fp_div(v.2, vec.2), crate::fixed::fp_div(v.3, vec.3)));
            i = i + 1;
        }
        proof {
            assert(out@ =~= self.spec_div_vector(vec));
        }
        out
    }
}


impl Transform<(Scalar, Scalar, Scalar, Scalar), Mat4> for Vec<(Scalar, Scalar, Scalar, Scalar)> {
    open spec fn transform_req(&self, matrix: &Mat4) -> bool {
        forall|k: int|
            0 <= k < self@.len() ==> mat4_vec4_in_range(
                *matrix,
                (
                    (#[trigger] self@[k]).0 as int,
                    self@[k].1 as int,
                    self@[k].2 as int,
                    self@[k].3 as int,
                ),
            )
    }

    open spec fn spec_transform(&self, matrix: &Mat4) -> Seq<(Scalar, Scalar, Scalar, Scalar)> {
        self@.map_values(
            |v: (Scalar, Scalar, Scalar, Scalar)|
                {
                    let r = spec_mat4_mul_vec4(
                        *matrix,
                        (v.0 as int, v.1 as int, v.2 as int, v.3 as int),
                    );
                    (r.0 as i64, r.1 as i64, r.2 as i64, r.3 as i64)
                },
        )
    }

    fn transform(&self, matrix: &Mat4) -> (r: Vec<(Scalar, Scalar, Scalar, Scalar)>) {
        let mut out: Vec<(Scalar, Scalar, Scalar, Scalar)> = Vec::new();
        let mut i: usize = 0;
        while i < self.len()
            invariant
                i <= self@.len(),
                self.transform_req(matrix),
                out@.len() == i,
                forall|k: int|
                    0 <= k < i ==> #[trigger] out@[k] == self.spec_transform(matrix)[k],
            decreases self@.len() - i,
        {
            out.push(mat4_mul_vec4(matrix, self[i]));
            i = i + 1;
        }
        proof {
            assert(out@ =~= self.spec_transform(matrix));
        }
        out
    }
}

impl Normalize<(Scalar, Scalar)> for Vec<(Scalar, Scalar)> {
    open spec fn normalize_req(&self) -> bool {
        elems2_bounded(self@, NORM_INPUT_LIMIT as int)
    }

    open spec fn spec_normalized(&self) -> Seq<(Scalar, Scalar)> {
        self@.map_values(
            |v: (Scalar, Scalar)|
                {
                    let r = spec_normalize2((v.0 as int, v.1 as int));
                    (r.0 as i64, r.1 as i64)
                },
        )
    }

    fn normalize(&self) -> (r: Vec<(Scalar, Scalar)>) {
        let mut out: Vec<(Scalar, Scalar)> = Vec::new();
        let mut i: usize = 0;
        while i < self.len()
            invariant
                i <= self@.len(),
                self.normalize_req(),
                out@.len() == i,
                forall|k: int|
                    0 <= k < i ==> #[trigger] out@[k] == self.spec_normalized()[k],
            decreases self@.len() - i,
        {
            out.push(normalize2(self[i]));
            i = i + 1;
        }
        proof {
            assert(out@ =~= self.spec_normalized());
        }
        out
    }
}

impl Normalize<(Scalar, Scalar, Scalar, Scalar)> for Vec<(Scalar, Scalar, Scalar, Scalar)> {
    open spec fn normalize_req(&self) -> bool {
        elems4_bounded(self@, NORM_INPUT_LIMIT as int)
    }

    open spec fn spec_normalized(&self) -> Seq<(Scalar, Scalar, Scalar, Scalar)> {
        self@.map_values(
            |v: (Scalar, Scalar, Scalar, Scalar)|
                {
                    let r = spec_normalize4((v.0 as int, v.1 as int, v.2 as int, v.3 as int));
                    (r.0 as i64, r.1 as i64, r.2 as i64, r.3 as i64)
                },
        )
    }

    fn normalize(&self) -> (r: Vec<(Scalar, Scalar, Scalar, Scalar)>) {
        let mut out: Vec<(Scalar, Scalar, Scalar, Scalar)> = Vec::new();
        let mut i: usize = 0;
        while i < self.len()
            invariant
                i <= self@.len(),
                self.normalize_req(),
                out@.len() == i,
                forall|k: int|
                    0 <= k < i ==> #[trigger] out@[k] == self.spec_normalized()[k],
            decreases self@.len() - i,
        {
            out.push(normalize4(self[i]));
            i = i + 1;
        }
        proof {
            assert(out@ =~= self.spec_normalized());
        }
        out
    }
}

impl AppendOne<(Scalar, Scalar, Scalar), (Scalar, Scalar, Scalar, Scalar)> for Vec<
    (Scalar, Scalar, Scalar),
> {
    open spec fn spec_append_one(&self) -> Seq<(Scalar, Scalar, Scalar, Scalar)> {
        self@.map_values(|v: (Scalar, Scalar, Scalar)| (v.0, v.1, v.2, FP_ONE))
    }

    fn append_one(&self) -> (r: Vec<(Scalar, Scalar, Scalar, Scalar)>) {
        let mut out: Vec<(Scalar, Scalar, Scalar, Scalar)> = Vec::new();
        let mut i: usize = 0;
        while i < self.len()
            invariant
                i <= self@.len(),
                out@.len() == i,
                forall|k: int|
                    0 <= k < i ==> #[trigger] out@[k] == self.spec_append_one()[k],
            decreases self@.len() - i,
        {
            let v = self[i];
            out.push((v.0, v.1, v.2, FP_ONE));
            i = i + 1;
        }
        proof {
            assert(out@ =~= self.spec_append_one());
        }
        out
    }
}

impl Zeros<(Scalar, Scalar)> for Vec<(Scalar, Scalar)> {
    open spec fn spec_zeros(&self) -> Seq<(Scalar, Scalar)> {
        self@.map_values(|v: (Scalar, Scalar)| (0i64, 0i64))
    }

    fn zeros(&self) -> (r: Vec<(Scalar, Scalar)>) {
        let mut out: Vec<(Scalar, Scalar)> = Vec::new();
        let mut i: usize = 0;
        while i < self.len()
            invariant
                i <= self@.len(),
                out@.len() == i,
                forall|k: int| 0 <= k < i ==> #[trigger] out@[k] == self.spec_zeros()[k],
            decreases self@.len() - i,
        {
            out.push((0, 0));
            i = i + 1;
        }
        proof {
            assert(out@ =~= self.spec_zeros());
        }
        out
    }
}

impl Zeros<(Scalar, Scalar, Scalar, Scalar)> for Vec<(Scalar, Scalar, Scalar, Scalar)> {
    open spec fn spec_zeros(&self) -> Seq<(Scalar, Scalar, Scalar, Scalar)> {
        self@.map_values(|v: (Scalar, Scalar, Scalar, Scalar)| (0i64, 0i64, 0i64, 0i64))
    }

    fn zeros(&self) -> (r: Vec<(Scalar, Scalar, Scalar, Scalar)>) {
        let mut out: Vec<(Scalar, Scalar, Scalar, Scalar)> = Vec::new();
        let mut i: usize = 0;
        while i < self.len()
            invariant
                i <= self@.len(),
                out@.len() == i,
                forall|k: int| 0 <= k < i ==> #[trigger] out@[k] == self.spec_zeros()[k],
            decreases self@.len() - i,
        {
            out.push((0, 0, 0, 0));
            i = i + 1;
        }
        proof {
            assert(out@ =~= self.spec_zeros());
        }
        out
    }
}

} // verus!
