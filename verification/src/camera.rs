//! The projective camera: intrinsics derived from a field of view, and
//! per-pixel rays in camera or world space.
//!
//! The field of view is carried as the tangent of half the vertical
//! angle, in fixed point: every intrinsic quantity is then exact integer
//! arithmetic. Pixels are enumerated row-major, row 0 at the top, and the
//! ray for pixel `(x, y)` sits at index `y * width + x`. The camera looks
//! along +z in its own space; a pose rotates directions and supplies the
//! shared origin.

use vstd::prelude::*;

use crate::fixed::FP_ONE;
use crate::fixed::fp_mul;
use crate::fixed::lemma_fp_mul_bound;
use crate::fixed::lemma_trunc_div_bounds;
use crate::fixed::spec_abs;
use crate::fixed::spec_fp_mul;
use crate::fixed::trunc_div;
use crate::vec_ops::MAT_TERM_LIMIT;
use crate::vec_ops::Mat3;
use crate::vec_ops::Mat4;
use crate::vec_ops::NORM_INPUT_LIMIT;
use crate::vec_ops::mat3_mul_vec3;
use crate::vec_ops::mat3_vec3_in_range;
use crate::vec_ops::mat4_linear;
use crate::vec_ops::mat4_translation;
use crate::vec_ops::normalize3;
use crate::vec_ops::spec_mat3_mul_vec3;
use crate::vec_ops::spec_normalize3;
use crate::fixed::COORD_LIMIT;
use crate::venom_core::Scalar;
use crate::venom_core::point_bounded;

verus! {

/// Largest image dimension the camera accepts.
pub const DIM_LIMIT: u32 = 16384;

/// Largest tangent of the half field of view, in fixed point.
pub const TAN_LIMIT: i64 = 0x1_0000_0000;

/// A ray: an origin and a direction, in fixed point.
#[derive(Debug, Clone, Copy, PartialEq)]
pub struct Ray {
    pub origin: (Scalar, Scalar, Scalar),
    pub direction: (Scalar, Scalar, Scalar),
}

/// Why a camera configuration was rejected.
#[derive(Debug, Clone, Copy, PartialEq, Eq)]
pub enum CameraError {
    /// A dimension is outside the admissible range.
    InvalidDimensions,
    /// The field of view yields no invertible intrinsic matrix.
    DegenerateFov,
}

/// Every entry of a transform small enough for exact arithmetic.
pub open spec fn mat4_bounded(m: Mat4) -> bool {
    &&& spec_abs(m.r0.0 as int) <= COORD_LIMIT as int && spec_abs(m.r0.1 as int)
        <= COORD_LIMIT as int && spec_abs(m.r0.2 as int) <= COORD_LIMIT as int && spec_abs(
        m.r0.3 as int,
    ) <= COORD_LIMIT as int
    &&& spec_abs(m.r1.0 as int) <= COORD_LIMIT as int && spec_abs(m.r1.1 as int)
        <= COORD_LIMIT as int && spec_abs(m.r1.2 as int) <= COORD_LIMIT as int && spec_abs(
        m.r1.3 as int,
    ) <= COORD_LIMIT as int
    &&& spec_abs(m.r2.0 as int) <= COORD_LIMIT as int && spec_abs(m.r2.1 as int)
        <= COORD_LIMIT as int && spec_abs(m.r2.2 as int) <= COORD_LIMIT as int && spec_abs(
        m.r2.3 as int,
    ) <= COORD_LIMIT as int
    &&& spec_abs(m.r3.0 as int) <= COORD_LIMIT as int && spec_abs(m.r3.1 as int)
        <= COORD_LIMIT as int && spec_abs(m.r3.2 as int) <= COORD_LIMIT as int && spec_abs(
        m.r3.3 as int,
    ) <= COORD_LIMIT as int
}

/// The horizontal focal length in fixed point: `(w-1) * h / (2 * w * t)`
/// in real terms, where `t` is the tangent of the half vertical angle.
pub open spec fn spec_fx(t: i64, w: u32, h: u32) -> int {
    trunc_div((w - 1) * h * ((FP_ONE as int) * (FP_ONE as int)), 2 * w * t)
}

/// The vertical focal length in fixed point: `(h-1) / (2 * t)` in real
/// terms.
pub open spec fn spec_fy(t: i64, h: u32) -> int {
    trunc_div((h - 1) * ((FP_ONE as int) * (FP_ONE as int)), 2 * t)
}

/// The principal point sits at the image center.
pub open spec fn spec_cx(w: u32) -> int {
    (w - 1) * ((FP_ONE as int) / 2)
}

/// Both image dimensions admissible.
pub open spec fn dims_ok(w: u32, h: u32) -> bool {
    2 <= w <= DIM_LIMIT && 2 <= h <= DIM_LIMIT
}

/// The tangent of the half field of view admissible.
pub open spec fn fov_ok(t: i64) -> bool {
    1 <= t <= TAN_LIMIT
}

/// A configuration is valid when dimensions and field of view are in
/// range and both focal lengths round to an invertible fixed-point
/// value: at least one unit, at most one over the smallest unit.
pub open spec fn camera_valid(t: i64, w: u32, h: u32) -> bool {
    &&& dims_ok(w, h)
    &&& fov_ok(t)
    &&& 1 <= spec_fx(t, w, h) <= (FP_ONE as int) * (FP_ONE as int)
    &&& 1 <= spec_fy(t, h) <= (FP_ONE as int) * (FP_ONE as int)
}

/// The error an invalid configuration is reported with: dimensions are
/// checked first, then the field of view.
pub open spec fn spec_camera_error(t: i64, w: u32, h: u32) -> CameraError {
    if !dims_ok(w, h) {
        CameraError::InvalidDimensions
    } else {
        CameraError::DegenerateFov
    }
}

/// The intrinsic matrix of a configuration, entry by entry.
pub open spec fn intrinsic_matches(m: Mat3, t: i64, w: u32, h: u32) -> bool {
    &&& m.r0.0 as int == spec_fx(t, w, h) && m.r0.1 == 0i64 && m.r0.2 as int == spec_cx(w)
    &&& m.r1.0 == 0i64 && m.r1.1 as int == spec_fy(t, h) && m.r1.2 as int == spec_cx(h)
    &&& m.r2.0 == 0i64 && m.r2.1 == 0i64 && m.r2.2 == FP_ONE
}

/// The inverse intrinsic matrix of a configuration, entry by entry:
/// the exact closed form of the inverse, each division rounded once.
pub open spec fn inverse_matches(m: Mat3, t: i64, w: u32, h: u32) -> bool {
    &&& m.r0.0 as int == trunc_div((FP_ONE as int) * (FP_ONE as int), spec_fx(t, w, h)) && m.r0.1
        == 0i64 && m.r0.2 as int == trunc_div(-(spec_cx(w) * (FP_ONE as int)), spec_fx(t, w, h))
    &&& m.r1.0 == 0i64 && m.r1.1 as int == trunc_div(
        (FP_ONE as int) * (FP_ONE as int),
        spec_fy(t, h),
    ) && m.r1.2 as int == trunc_div(-(spec_cx(h) * (FP_ONE as int)), spec_fy(t, h))
    &&& m.r2.0 == 0i64 && m.r2.1 == 0i64 && m.r2.2 == FP_ONE
}

/// The camera: a pose, the intrinsic matrix with its inverse, and the
/// parameters they were derived from. Treat the fields as read-only:
/// the mutators keep both matrices consistent with the parameters, and
/// every operation requires that consistency (`wf`).
#[derive(Debug, Clone, Copy, PartialEq)]
pub struct Camera {
    pub transform: Mat4,
    pub cameraMatrix: Mat3,
    pub cameraMatrixInverse: Mat3,
    pub tanHalfFov: i64,
    pub imageWidth: u32,
    pub imageHeight: u32,
}

impl Camera {
    /// Consistency: the configuration is valid and both matrices are the
    /// ones derived from it.
    pub open spec fn wf(self) -> bool {
        &&& camera_valid(self.tanHalfFov, self.imageWidth, self.imageHeight)
        &&& intrinsic_matches(self.cameraMatrix, self.tanHalfFov, self.imageWidth, self.imageHeight)
        &&& inverse_matches(
            self.cameraMatrixInverse,
            self.tanHalfFov,
            self.imageWidth,
            self.imageHeight,
        )
        &&& mat4_bounded(self.transform)
    }
}

/// The camera-space direction of the ray through pixel `(x, y)`: the
/// inverse intrinsics applied to the homogeneous pixel coordinate, then
/// normalized. The +z component of every unnormalized direction is one.
pub open spec fn spec_ray_dir(c: Camera, x: int, y: int) -> (int, int, int) {
    spec_normalize3(
        spec_mat3_mul_vec3(
            c.cameraMatrixInverse,
            (x * (FP_ONE as int), y * (FP_ONE as int), FP_ONE as int),
        ),
    )
}

/// The ray produced for pixel `(x, y)` in camera space: local origin,
/// normalized direction, each component within one fixed-point unit.
pub open spec fn ray_matches(c: Camera, r: Ray, x: int, y: int) -> bool {
    &&& r.origin == (0i64, 0i64, 0i64)
    &&& (r.direction.0 as int, r.direction.1 as int, r.direction.2 as int) == spec_ray_dir(c, x, y)
    &&& spec_abs(r.direction.0 as int) <= FP_ONE as int
    &&& spec_abs(r.direction.1 as int) <= FP_ONE as int
    &&& spec_abs(r.direction.2 as int) <= FP_ONE as int
}

/// The ray produced for pixel `(x, y)` in world space: the pose's
/// translation as shared origin, the direction rotated by its linear
/// part and not translated.
pub open spec fn transformed_ray_matches(c: Camera, r: Ray, x: int, y: int) -> bool {
    &&& r.origin == mat4_translation(c.transform)
    &&& (r.direction.0 as int, r.direction.1 as int, r.direction.2 as int) == spec_mat3_mul_vec3(
        mat4_linear(c.transform),
        spec_ray_dir(c, x, y),
    )
}

/// Compute both intrinsic matrices for a configuration, or say exactly
/// why none exists.
fn compute_matrices(t: i64, w: u32, h: u32) -> (result: Result<(Mat3, Mat3), CameraError>)
    ensures
        match result {
            Ok(ms) => camera_valid(t, w, h) && intrinsic_matches(ms.0, t, w, h) && inverse_matches(
                ms.1,
                t,
                w,
                h,
            ),
            Err(e) => !camera_valid(t, w, h) && e == spec_camera_error(t, w, h),
        },
{
    if w < 2 || w > DIM_LIMIT || h < 2 || h > DIM_LIMIT {
        return Err(CameraError::InvalidDimensions);
    }
    if t < 1 || t > TAN_LIMIT {
        return Err(CameraError::DegenerateFov);
    }
    let s2: u128 = (FP_ONE as u128) * (FP_ONE as u128);
    proof {
        assert(((w - 1) as int) * (h as int) <= 0x1000_0000) by (nonlinear_arith)
            requires
                2 <= w <= 16384,
                2 <= h <= 16384,
        ;
        assert(1 <= (2 * (w as int)) * (t as int) <= 0x8000 * 0x1_0000_0000) by (nonlinear_arith)
            requires
                2 <= w <= 16384,
                1 <= t <= 0x1_0000_0000,
        ;
    }
    let num_fx: u128 = ((w - 1) as u128) * (h as u128) * s2;
    let den_fx: u128 = 2 * (w as u128) * (t as u128);
    let fx: u128 = num_fx / den_fx;
    let num_fy: u128 = ((h - 1) as u128) * s2;
    let den_fy: u128 = 2 * (t as u128);
    let fy: u128 = num_fy / den_fy;
    proof {
        crate::fixed::lemma_trunc_div_nonneg(num_fx as int, den_fx as int);
        crate::fixed::lemma_trunc_div_nonneg(num_fy as int, den_fy as int);
        assert(fx as int == spec_fx(t, w, h));
        assert(fy as int == spec_fy(t, h));
    }
    if fx < 1 || fx > s2 || fy < 1 || fy > s2 {
        return Err(CameraError::DegenerateFov);
    }
    let cx: i64 = ((w - 1) as i64) * (FP_ONE / 2);
    let cy: i64 = ((h - 1) as i64) * (FP_ONE / 2);
    let intrinsic = Mat3 {
        r0: (fx as i64, 0, cx),
        r1: (0, fy as i64, cy),
        r2: (0, 0, FP_ONE),
    };
    let ix: u128 = s2 / fx;
    let iy: u128 = s2 / fy;
    let icx_mag: u128 = ((cx as u128) * (FP_ONE as u128)) / fx;
    let icy_mag: u128 = ((cy as u128) * (FP_ONE as u128)) / fy;
    proof {
        vstd::arithmetic::div_mod::lemma_div_nonincreasing(s2 as int, fx as int);
        vstd::arithmetic::div_mod::lemma_div_nonincreasing(s2 as int, fy as int);
        vstd::arithmetic::div_mod::lemma_div_nonincreasing(
            (cx as int) * (FP_ONE as int),
            fx as int,
        );
        vstd::arithmetic::div_mod::lemma_div_nonincreasing(
            (cy as int) * (FP_ONE as int),
            fy as int,
        );
        crate::fixed::lemma_trunc_div_nonneg(s2 as int, fx as int);
        crate::fixed::lemma_trunc_div_nonneg(s2 as int, fy as int);
        crate::fixed::lemma_trunc_div_nonneg((cx as int) * (FP_ONE as int), fx as int);
        crate::fixed::lemma_trunc_div_nonneg((cy as int) * (FP_ONE as int), fy as int);
        lemma_trunc_div_bounds((cx as int) * (FP_ONE as int), fx as int);
        lemma_trunc_div_bounds((cy as int) * (FP_ONE as int), fy as int);
        assert(trunc_div(-(spec_cx(w) * (FP_ONE as int)), spec_fx(t, w, h)) == -(icx_mag as int));
        assert(trunc_div(-(spec_cx(h) * (FP_ONE as int)), spec_fy(t, h)) == -(icy_mag as int));
    }
    let inverse = Mat3 {
        r0: (ix as i64, 0, -(icx_mag as i64)),
        r1: (0, iy as i64, -(icy_mag as i64)),
        r2: (0, 0, FP_ONE),
    };
    Ok((intrinsic, inverse))
}

/// On a valid configuration the inverse intrinsics have small entries:
/// the diagonal within one over the smallest focal unit, the last
/// column within the scaled principal point.
proof fn lemma_inverse_entry_bounds(m: Mat3, t: i64, w: u32, h: u32)
    requires
        camera_valid(t, w, h),
        inverse_matches(m, t, w, h),
    ensures
        spec_abs(m.r0.0 as int) <= 0x2000_0000_0000,
        spec_abs(m.r0.1 as int) <= 0x2000_0000_0000,
        spec_abs(m.r0.2 as int) <= 0x2000_0000_0000,
        spec_abs(m.r1.0 as int) <= 0x2000_0000_0000,
        spec_abs(m.r1.1 as int) <= 0x2000_0000_0000,
        spec_abs(m.r1.2 as int) <= 0x2000_0000_0000,
        spec_abs(m.r2.0 as int) <= 0x2000_0000_0000,
        spec_abs(m.r2.1 as int) <= 0x2000_0000_0000,
        spec_abs(m.r2.2 as int) <= 0x2000_0000_0000,
{
    let s2 = (FP_ONE as int) * (FP_ONE as int);
    lemma_trunc_div_bounds(s2, spec_fx(t, w, h));
    lemma_trunc_div_bounds(s2, spec_fy(t, h));
    lemma_trunc_div_bounds(-(spec_cx(w) * (FP_ONE as int)), spec_fx(t, w, h));
    lemma_trunc_div_bounds(-(spec_cx(h) * (FP_ONE as int)), spec_fy(t, h));
}

/// Products of inverse-intrinsic entries with fixed-point pixel
/// coordinates stay inside the matrix-application range.
proof fn lemma_pixel_in_range(m: Mat3, v: (int, int, int))
    requires
        spec_abs(m.r0.0 as int) <= 0x2000_0000_0000,
        spec_abs(m.r0.1 as int) <= 0x2000_0000_0000,
        spec_abs(m.r0.2 as int) <= 0x2000_0000_0000,
        spec_abs(m.r1.0 as int) <= 0x2000_0000_0000,
        spec_abs(m.r1.1 as int) <= 0x2000_0000_0000,
        spec_abs(m.r1.2 as int) <= 0x2000_0000_0000,
        spec_abs(m.r2.0 as int) <= 0x2000_0000_0000,
        spec_abs(m.r2.1 as int) <= 0x2000_0000_0000,
        spec_abs(m.r2.2 as int) <= 0x2000_0000_0000,
        spec_abs(v.0) <= 0x4000_0000,
        spec_abs(v.1) <= 0x4000_0000,
        spec_abs(v.2) <= 0x4000_0000,
    ensures
        mat3_vec3_in_range(m, v),
{
    vstd::arithmetic::mul::lemma_mul_upper_bound(
        spec_abs(m.r0.0 as int),
        0x2000_0000_0000,
        spec_abs(v.0),
        0x4000_0000,
    );
    vstd::arithmetic::mul::lemma_mul_upper_bound(
        spec_abs(m.r0.1 as int),
        0x2000_0000_0000,
        spec_abs(v.1),
        0x4000_0000,
    );
    vstd::arithmetic::mul::lemma_mul_upper_bound(
        spec_abs(m.r0.2 as int),
        0x2000_0000_0000,
        spec_abs(v.2),
        0x4000_0000,
    );
    vstd::arithmetic::mul::lemma_mul_upper_bound(
        spec_abs(m.r1.0 as int),
        0x2000_0000_0000,
        spec_abs(v.0),
        0x4000_0000,
    );
    vstd::arithmetic::mul::lemma_mul_upper_bound(
        spec_abs(m.r1.1 as int),
        0x2000_0000_0000,
        spec_abs(v.1),
        0x4000_0000,
    );
    vstd::arithmetic::mul::lemma_mul_upper_bound(
        spec_abs(m.r1.2 as int),
        0x2000_0000_0000,
        spec_abs(v.2),
        0x4000_0000,
    );
    vstd::arithmetic::mul::lemma_mul_upper_bound(
        spec_abs(m.r2.0 as int),
        0x2000_0000_0000,
        spec_abs(v.0),
        0x4000_0000,
    );
    vstd::arithmetic::mul::lemma_mul_upper_bound(
        spec_abs(m.r2.1 as int),
        0x2000_0000_0000,
        spec_abs(v.1),
        0x4000_0000,
    );
    vstd::arithmetic::mul::lemma_mul_upper_bound(
        spec_abs(m.r2.2 as int),
        0x2000_0000_0000,
        spec_abs(v.2),
        0x4000_0000,
    );
}

/// Derive the intrinsic matrix from the field of view and the image
/// size, failing fast on any configuration that has no invertible one.
pub fn ComputeCameraMatrix(tanHalfFov: i64, imageWidth: u32, imageHeight: u32) -> (result: Result<
    Mat3,
    CameraError,
>)
    ensures
        match result {
            Ok(m) => camera_valid(tanHalfFov, imageWidth, imageHeight) && intrinsic_matches(
                m,
                tanHalfFov,
                imageWidth,
                imageHeight,
            ),
            Err(e) => !camera_valid(tanHalfFov, imageWidth, imageHeight) && e == spec_camera_error(
                tanHalfFov,
                imageWidth,
                imageHeight,
            ),
        },
{
    match compute_matrices(tanHalfFov, imageWidth, imageHeight) {
        Ok(ms) => Ok(ms.0),
        Err(e) => Err(e),
    }
}

/// The homogeneous pixel coordinates of a `w` by `h` grid in row-major
/// order, each as `(x, y, 1)` in fixed point.
pub fn GenerateHomogenousPixelCoordinates(imageWidth: u32, imageHeight: u32) -> (pcs: Vec<
    (Scalar, Scalar, Scalar),
>)
    requires
        imageWidth <= DIM_LIMIT,
        imageHeight <= DIM_LIMIT,
    ensures
        pcs@.len() == imageWidth * imageHeight,
        forall|i: int|
            0 <= i < pcs@.len() ==> (#[trigger] pcs@[i]).0 as int == (i % (imageWidth as int)) * (
            FP_ONE as int) && pcs@[i].1 as int == (i / (imageWidth as int)) * (FP_ONE as int)
                && pcs@[i].2 == FP_ONE,
{
    let mut pcs: Vec<(Scalar, Scalar, Scalar)> = Vec::new();
    if imageWidth == 0 || imageHeight == 0 {
        return pcs;
    }
    proof {
        assert((imageWidth as int) * (imageHeight as int) <= 0x1000_0000) by (nonlinear_arith)
            requires
                imageWidth <= 16384,
                imageHeight <= 16384,
        ;
    }
    let total: u32 = imageWidth * imageHeight;
    let mut i: u32 = 0;
    while i < total
        invariant
            total == imageWidth * imageHeight,
            1 <= imageWidth <= DIM_LIMIT,
            imageHeight <= DIM_LIMIT,
            i <= total,
            pcs@.len() == i,
            forall|k: int|
                0 <= k < pcs@.len() ==> (#[trigger] pcs@[k]).0 as int == (k % (imageWidth as int))
                    * (FP_ONE as int) && pcs@[k].1 as int == (k / (imageWidth as int)) * (
                FP_ONE as int) && pcs@[k].2 == FP_ONE,
        decreases total - i,
    {
        let x: u32 = i % imageWidth;
        let y: u32 = i / imageWidth;
        proof {
            vstd::arithmetic::div_mod::lemma_remainder_lower(i as int, imageWidth as int);
            vstd::arithmetic::div_mod::lemma_remainder_upper(i as int, imageWidth as int);
            vstd::arithmetic::div_mod::lemma_div_pos_is_pos(i as int, imageWidth as int);
            assert((y as int) <= i as int) by {
                vstd::arithmetic::div_mod::lemma_div_nonincreasing(i as int, imageWidth as int);
            }
        }
        pcs.push(((x as i64) * FP_ONE, (y as i64) * FP_ONE, FP_ONE));
        i = i + 1;
    }
    pcs
}

impl Camera {
    /// A camera with the given pose, field of view and image size;
    /// degenerate configurations are rejected, never constructed.
    pub fn new(transform: Mat4, tanHalfFov: i64, imageWidth: u32, imageHeight: u32) -> (result:
        Result<Camera, CameraError>)
        requires
            mat4_bounded(transform),
        ensures
            match result {
                Ok(c) => {
                    &&& camera_valid(tanHalfFov, imageWidth, imageHeight)
                    &&& c.wf()
                    &&& c.transform == transform
                    &&& c.tanHalfFov == tanHalfFov
                    &&& c.imageWidth == imageWidth
                    &&& c.imageHeight == imageHeight
                },
                Err(e) => !camera_valid(tanHalfFov, imageWidth, imageHeight) && e
                    == spec_camera_error(tanHalfFov, imageWidth, imageHeight),
            },
    {
        match compute_matrices(tanHalfFov, imageWidth, imageHeight) {
            Ok(ms) => Ok(
                Camera {
                    transform,
                    cameraMatrix: ms.0,
                    cameraMatrixInverse: ms.1,
                    tanHalfFov,
                    imageWidth,
                    imageHeight,
                },
            ),
            Err(e) => Err(e),
        }
    }

    /// One ray per pixel in camera space, row-major with row 0 on top:
    /// the ray for pixel `(x, y)` sits at index `y * width + x`, starts
    /// at the local origin and points along its normalized unprojected
    /// direction.
    pub fn getRays(&self) -> (rays: Vec<Ray>)
        requires
            self.wf(),
        ensures
            rays@.len() == self.imageWidth * self.imageHeight,
            forall|i: int|
                0 <= i < rays@.len() ==> ray_matches(
                    *self,
                    #[trigger] rays@[i],
                    i % (self.imageWidth as int),
                    i / (self.imageWidth as int),
                ),
            forall|x: int, y: int|
                0 <= x < self.imageWidth && 0 <= y < self.imageHeight ==> ray_matches(
                    *self,
                    #[trigger] rays@[y * (self.imageWidth as int) + x],
                    x,
                    y,
                ),
    {
        let pcs = GenerateHomogenousPixelCoordinates(self.imageWidth, self.imageHeight);
        let mut rays: Vec<Ray> = Vec::new();
        let mut i: usize = 0;
        while i < pcs.len()
            invariant
                self.wf(),
                pcs@.len() == self.imageWidth * self.imageHeight,
                forall|k: int|
                    0 <= k < pcs@.len() ==> (#[trigger] pcs@[k]).0 as int == (k % (
                    self.imageWidth as int)) * (FP_ONE as int) && pcs@[k].1 as int == (k / (
                    self.imageWidth as int)) * (FP_ONE as int) && pcs@[k].2 == FP_ONE,
                i <= pcs@.len(),
                rays@.len() == i,
                forall|k: int|
                    0 <= k < i ==> ray_matches(
                        *self,
                        #[trigger] rays@[k],
                        k % (self.imageWidth as int),
                        k / (self.imageWidth as int),
                    ),
            decreases pcs@.len() - i,
        {
            let pc = pcs[i];
            proof {
                lemma_inverse_entry_bounds(
                    self.cameraMatrixInverse,
                    self.tanHalfFov,
                    self.imageWidth,
                    self.imageHeight,
                );
                vstd::arithmetic::div_mod::lemma_mod_bound(i as int, self.imageWidth as int);
                vstd::arithmetic::div_mod::lemma_div_pos_is_pos(i as int, self.imageWidth as int);
                vstd::arithmetic::div_mod::lemma_multiply_divide_lt(
                    i as int,
                    self.imageWidth as int,
                    self.imageHeight as int,
                );
                assert(spec_abs(pc.0 as int) <= 0x4000_0000);
                assert(spec_abs(pc.1 as int) <= 0x4000_0000);
                lemma_pixel_in_range(
                    self.cameraMatrixInverse,
                    (pc.0 as int, pc.1 as int, pc.2 as int),
                );
            }
            let pre = mat3_mul_vec3(&self.cameraMatrixInverse, pc);
            let dir = normalize3(pre);
            rays.push(Ray { origin: (0, 0, 0), direction: dir });
            i = i + 1;
        }
        proof {
            let w = self.imageWidth as int;
            assert forall|x: int, y: int|
                0 <= x < self.imageWidth && 0 <= y < self.imageHeight implies ray_matches(
                *self,
                #[trigger] rays@[y * w + x],
                x,
                y,
            ) by {
                assert(0 <= y * w + x < rays@.len()) by (nonlinear_arith)
                    requires
                        0 <= x < w,
                        0 <= y < self.imageHeight as int,
                        rays@.len() == (self.imageWidth as int) * (self.imageHeight as int),
                        w == self.imageWidth as int,
                ;
                vstd::arithmetic::div_mod::lemma_fundamental_div_mod_converse(y * w + x, w, y, x);
            }
        }
        rays
    }

    /// One ray per pixel in world space: every ray shares the pose's
    /// translation as origin, and each direction is rotated by the
    /// pose's linear part, never translated.
    pub fn getTransformedRays(&self) -> (rays: Vec<Ray>)
        requires
            self.wf(),
        ensures
            rays@.len() == self.imageWidth * self.imageHeight,
            forall|i: int|
                0 <= i < rays@.len() ==> transformed_ray_matches(
                    *self,
                    #[trigger] rays@[i],
                    i % (self.imageWidth as int),
                    i / (self.imageWidth as int),
                ),
            forall|x: int, y: int|
                0 <= x < self.imageWidth && 0 <= y < self.imageHeight
                    ==> transformed_ray_matches(
                    *self,
                    #[trigger] rays@[y * (self.imageWidth as int) + x],
                    x,
                    y,
                ),
    {
        let base = self.getRays();
        let lin = Mat3 {
            r0: (self.transform.r0.0, self.transform.r0.1, self.transform.r0.2),
            r1: (self.transform.r1.0, self.transform.r1.1, self.transform.r1.2),
            r2: (self.transform.r2.0, self.transform.r2.1, self.transform.r2.2),
        };
        let origin = (self.transform.r0.3, self.transform.r1.3, self.transform.r2.3);
        let mut rays: Vec<Ray> = Vec::new();
        let mut i: usize = 0;
        while i < base.len()
            invariant
                self.wf(),
                lin == mat4_linear(self.transform),
                origin == mat4_translation(self.transform),
                base@.len() == self.imageWidth * self.imageHeight,
                forall|k: int|
                    0 <= k < base@.len() ==> ray_matches(
                        *self,
                        #[trigger] base@[k],
                        k % (self.imageWidth as int),
                        k / (self.imageWidth as int),
                    ),
                i <= base@.len(),
                rays@.len() == i,
                forall|k: int|
                    0 <= k < i ==> transformed_ray_matches(
                        *self,
                        #[trigger] rays@[k],
                        k % (self.imageWidth as int),
                        k / (self.imageWidth as int),
                    ),
            decreases base@.len() - i,
        {
            let d = base[i].direction;
            proof {
                assert forall|a: int, b: int|
                    spec_abs(a) <= COORD_LIMIT as int && spec_abs(b)
                        <= FP_ONE as int implies spec_abs(a) * spec_abs(b) <= (
                MAT_TERM_LIMIT as int) * (FP_ONE as int) by {
                    vstd::arithmetic::mul::lemma_mul_upper_bound(
                        spec_abs(a),
                        COORD_LIMIT as int,
                        spec_abs(b),
                        FP_ONE as int,
                    );
                }
            }
            let nd = mat3_mul_vec3(&lin, d);
            rays.push(Ray { origin, direction: nd });
            i = i + 1;
        }
        proof {
            let w = self.imageWidth as int;
            assert forall|x: int, y: int|
                0 <= x < self.imageWidth && 0 <= y
                    < self.imageHeight implies transformed_ray_matches(
                *self,
                #[trigger] rays@[y * w + x],
                x,
                y,
            ) by {
                assert(0 <= y * w + x < rays@.len()) by (nonlinear_arith)
                    requires
                        0 <= x < w,
                        0 <= y < self.imageHeight as int,
                        rays@.len() == (self.imageWidth as int) * (self.imageHeight as int),
                        w == self.imageWidth as int,
                ;
                vstd::arithmetic::div_mod::lemma_fundamental_div_mod_converse(y * w + x, w, y, x);
            }
        }
        rays
    }

    /// Replace the world pose.
    pub fn setTransform(&mut self, transform: Mat4)
        requires
            old(self).wf(),
            mat4_bounded(transform),
        ensures
            final(self).wf(),
            final(self).transform == transform,
            final(self).cameraMatrix == old(self).cameraMatrix,
            final(self).cameraMatrixInverse == old(self).cameraMatrixInverse,
            final(self).tanHalfFov == old(self).tanHalfFov,
            final(self).imageWidth == old(self).imageWidth,
            final(self).imageHeight == old(self).imageHeight,
    {
        self.transform = transform;
    }

    /// Replace the pose's translation column; the rotation part and the
    /// intrinsics stay as they are.
    pub fn setTranslation(&mut self, translation: &(Scalar, Scalar, Scalar))
        requires
            old(self).wf(),
            point_bounded(*translation),
        ensures
            final(self).wf(),
            mat4_translation(final(self).transform) == *translation,
            mat4_linear(final(self).transform) == mat4_linear(old(self).transform),
            final(self).transform.r3 == old(self).transform.r3,
            final(self).cameraMatrix == old(self).cameraMatrix,
            final(self).cameraMatrixInverse == old(self).cameraMatrixInverse,
            final(self).tanHalfFov == old(self).tanHalfFov,
            final(self).imageWidth == old(self).imageWidth,
            final(self).imageHeight == old(self).imageHeight,
    {
        let t = self.transform;
        self.transform = Mat4 {
            r0: (t.r0.0, t.r0.1, t.r0.2, translation.0),
            r1: (t.r1.0, t.r1.1, t.r1.2, translation.1),
            r2: (t.r2.0, t.r2.1, t.r2.2, translation.2),
            r3: t.r3,
        };
    }

    /// Replace the pose's rotation part with the rotation about `axis`
    /// by the angle whose sine and cosine are given, via the Rodrigues
    /// form; translation and intrinsics stay as they are.
    pub fn setRotation(
        &mut self,
        axis: &(Scalar, Scalar, Scalar),
        sinAngle: Scalar,
        cosAngle: Scalar,
    )
        requires
            old(self).wf(),
            spec_abs(axis.0 as int) <= FP_ONE as int,
            spec_abs(axis.1 as int) <= FP_ONE as int,
            spec_abs(axis.2 as int) <= FP_ONE as int,
            spec_abs(sinAngle as int) <= FP_ONE as int,
            spec_abs(cosAngle as int) <= FP_ONE as int,
        ensures
            final(self).wf(),
            rotation_part_matches(
                final(self).transform,
                spec_rodrigues(*axis, sinAngle, cosAngle),
            ),
            mat4_translation(final(self).transform) == mat4_translation(old(self).transform),
            final(self).transform.r3 == old(self).transform.r3,
            final(self).cameraMatrix == old(self).cameraMatrix,
            final(self).cameraMatrixInverse == old(self).cameraMatrixInverse,
            final(self).tanHalfFov == old(self).tanHalfFov,
            final(self).imageWidth == old(self).imageWidth,
            final(self).imageHeight == old(self).imageHeight,
    {
        proof {
            assert forall|a: int, b: int|
                spec_abs(a) <= FP_ONE as int && spec_abs(b) <= FP_ONE as int implies spec_abs(a)
                    * spec_abs(b) <= (FP_ONE as int) * (FP_ONE as int) by {
                vstd::arithmetic::mul::lemma_mul_upper_bound(
                    spec_abs(a),
                    FP_ONE as int,
                    spec_abs(b),
                    FP_ONE as int,
                );
            }
            lemma_fp_mul_bound(axis.0 as int, axis.0 as int, FP_ONE as int);
            lemma_fp_mul_bound(axis.0 as int, axis.1 as int, FP_ONE as int);
            lemma_fp_mul_bound(axis.0 as int, axis.2 as int, FP_ONE as int);
            lemma_fp_mul_bound(axis.1 as int, axis.1 as int, FP_ONE as int);
            lemma_fp_mul_bound(axis.1 as int, axis.2 as int, FP_ONE as int);
            lemma_fp_mul_bound(axis.2 as int, axis.2 as int, FP_ONE as int);
        }
        let omc: i64 = FP_ONE - cosAngle;
        let xx: i64 = fp_mul(axis.0, axis.0);
        let xy: i64 = fp_mul(axis.0, axis.1);
        let xz: i64 = fp_mul(axis.0, axis.2);
        let yy: i64 = fp_mul(axis.1, axis.1);
        let yz: i64 = fp_mul(axis.1, axis.2);
        let zz: i64 = fp_mul(axis.2, axis.2);
        proof {
            assert forall|a: int, b: int|
                spec_abs(a) <= 2 * (FP_ONE as int) && spec_abs(b)
                    <= FP_ONE as int implies spec_abs(a) * spec_abs(b) <= 2 * (FP_ONE as int) * (
            FP_ONE as int) by {
                vstd::arithmetic::mul::lemma_mul_upper_bound(
                    spec_abs(a),
                    2 * (FP_ONE as int),
                    spec_abs(b),
                    FP_ONE as int,
                );
            }
            lemma_fp_mul_bound(omc as int, xx as int, 2 * (FP_ONE as int));
            lemma_fp_mul_bound(omc as int, xy as int, 2 * (FP_ONE as int));
            lemma_fp_mul_bound(omc as int, xz as int, 2 * (FP_ONE as int));
            lemma_fp_mul_bound(omc as int, yy as int, 2 * (FP_ONE as int));
            lemma_fp_mul_bound(omc as int, yz as int, 2 * (FP_ONE as int));
            lemma_fp_mul_bound(omc as int, zz as int, 2 * (FP_ONE as int));
            assert forall|a: int, b: int|
                spec_abs(a) <= FP_ONE as int && spec_abs(b) <= FP_ONE as int implies spec_abs(a)
                    * spec_abs(b) <= (FP_ONE as int) * (FP_ONE as int) by {
                vstd::arithmetic::mul::lemma_mul_upper_bound(
                    spec_abs(a),
                    FP_ONE as int,
                    spec_abs(b),
                    FP_ONE as int,
                );
            }
            lemma_fp_mul_bound(sinAngle as int, axis.0 as int, FP_ONE as int);
            lemma_fp_mul_bound(sinAngle as int, axis.1 as int, FP_ONE as int);
            lemma_fp_mul_bound(sinAngle as int, axis.2 as int, FP_ONE as int);
        }
        let r00: i64 = cosAngle + fp_mul(omc, xx);
        let r01: i64 = fp_mul(omc, xy) - fp_mul(sinAngle, axis.2);
        let r02: i64 = fp_mul(omc, xz) + fp_mul(sinAngle, axis.1);
        let r10: i64 = fp_mul(omc, xy) + fp_mul(sinAngle, axis.2);
        let r11: i64 = cosAngle + fp_mul(omc, yy);
        let r12: i64 = fp_mul(omc, yz) - fp_mul(sinAngle, axis.0);
        let r20: i64 = fp_mul(omc, xz) - fp_mul(sinAngle, axis.1);
        let r21: i64 = fp_mul(omc, yz) + fp_mul(sinAngle, axis.0);
        let r22: i64 = cosAngle + fp_mul(omc, zz);
        let t = self.transform;
        self.transform = Mat4 {
            r0: (r00, r01, r02, t.r0.3),
            r1: (r10, r11, r12, t.r1.3),
            r2: (r20, r21, r22, t.r2.3),
            r3: t.r3,
        };
    }

    /// Change the image size: on a valid new size both matrices are
    /// recomputed atomically; an invalid one is rejected and changes
    /// nothing.
    pub fn resize(&mut self, imageWidth: u32, imageHeight: u32) -> (result: Result<
        (),
        CameraError,
    >)
        requires
            old(self).wf(),
        ensures
            match result {
                Ok(()) => {
                    &&& camera_valid(old(self).tanHalfFov, imageWidth, imageHeight)
                    &&& final(self).wf()
                    &&& final(self).imageWidth == imageWidth
                    &&& final(self).imageHeight == imageHeight
                    &&& final(self).tanHalfFov == old(self).tanHalfFov
                    &&& final(self).transform == old(self).transform
                },
                Err(e) => {
                    &&& !camera_valid(old(self).tanHalfFov, imageWidth, imageHeight)
                    &&& e == spec_camera_error(old(self).tanHalfFov, imageWidth, imageHeight)
                    &&& *final(self) == *old(self)
                },
            },
    {
        match compute_matrices(self.tanHalfFov, imageWidth, imageHeight) {
            Ok(ms) => {
                self.imageWidth = imageWidth;
                self.imageHeight = imageHeight;
                self.cameraMatrix = ms.0;
                self.cameraMatrixInverse = ms.1;
                Ok(())
            },
            Err(e) => Err(e),
        }
    }

    /// Change the field of view: on a valid new tangent both matrices
    /// are recomputed atomically; an invalid one is rejected and changes
    /// nothing.
    pub fn setFov(&mut self, tanHalfFov: i64) -> (result: Result<(), CameraError>)
        requires
            old(self).wf(),
        ensures
            match result {
                Ok(()) => {
                    &&& camera_valid(tanHalfFov, old(self).imageWidth, old(self).imageHeight)
                    &&& final(self).wf()
                    &&& final(self).tanHalfFov == tanHalfFov
                    &&& final(self).imageWidth == old(self).imageWidth
                    &&& final(self).imageHeight == old(self).imageHeight
                    &&& final(self).transform == old(self).transform
                },
                Err(e) => {
                    &&& !camera_valid(tanHalfFov, old(self).imageWidth, old(self).imageHeight)
                    &&& e == spec_camera_error(
                        tanHalfFov,
                        old(self).imageWidth,
                        old(self).imageHeight,
                    )
                    &&& *final(self) == *old(self)
                },
            },
    {
        match compute_matrices(tanHalfFov, self.imageWidth, self.imageHeight) {
            Ok(ms) => {
                self.tanHalfFov = tanHalfFov;
                self.cameraMatrix = ms.0;
                self.cameraMatrixInverse = ms.1;
                Ok(())
            },
            Err(e) => Err(e),
        }
    }
}

/// The rotation about an axis by the angle whose sine and cosine are
/// given, in the Rodrigues form `cos I + sin K + (1 - cos) a aT`, every
/// product rounded once.
pub open spec fn spec_rodrigues(a: (Scalar, Scalar, Scalar), s: Scalar, c: Scalar) -> (
    (int, int, int),
    (int, int, int),
    (int, int, int),
) {
    let omc = FP_ONE as int - c;
    let xx = spec_fp_mul(a.0 as int, a.0 as int);
    let xy = spec_fp_mul(a.0 as int, a.1 as int);
    let xz = spec_fp_mul(a.0 as int, a.2 as int);
    let yy = spec_fp_mul(a.1 as int, a.1 as int);
    let yz = spec_fp_mul(a.1 as int, a.2 as int);
    let zz = spec_fp_mul(a.2 as int, a.2 as int);
    (
        (
            c + spec_fp_mul(omc, xx),
            spec_fp_mul(omc, xy) - spec_fp_mul(s as int, a.2 as int),
            spec_fp_mul(omc, xz) + spec_fp_mul(s as int, a.1 as int),
        ),
        (
            spec_fp_mul(omc, xy) + spec_fp_mul(s as int, a.2 as int),
            c + spec_fp_mul(omc, yy),
            spec_fp_mul(omc, yz) - spec_fp_mul(s as int, a.0 as int),
        ),
        (
            spec_fp_mul(omc, xz) - spec_fp_mul(s as int, a.1 as int),
            spec_fp_mul(omc, yz) + spec_fp_mul(s as int, a.0 as int),
            c + spec_fp_mul(omc, zz),
        ),
    )
}

/// The upper-left block of the transform equals the given rotation.
pub open spec fn rotation_part_matches(
    m: Mat4,
    r: ((int, int, int), (int, int, int), (int, int, int)),
) -> bool {
    &&& (m.r0.0 as int, m.r0.1 as int, m.r0.2 as int) == r.0
    &&& (m.r1.0 as int, m.r1.1 as int, m.r1.2 as int) == r.1
    &&& (m.r2.0 as int, m.r2.1 as int, m.r2.2 as int) == r.2
}

/// Law (unit length): every generated ray direction is unit length in
/// fixed point, within a few rounding steps of one unit. The vector
/// being normalized always carries the fixed-point one in its +z
/// component, so it is never shorter than one unit.
pub proof fn lemma_ray_dir_unit(c: Camera, x: int, y: int)
    requires
        c.wf(),
    ensures
        ({
            let d = spec_ray_dir(c, x, y);
            let s = FP_ONE as int;
            s * s - 6 * s - 3 <= d.0 * d.0 + d.1 * d.1 + d.2 * d.2 <= s * s + 3 * s
        }),
{
    let s = FP_ONE as int;
    let u = spec_mat3_mul_vec3(
        c.cameraMatrixInverse,
        (x * s, y * s, s),
    );
    assert(u.2 == s) by {
        assert(spec_fp_mul(0int, x * s) == 0) by {
            assert(0int * (x * s) == 0) by (nonlinear_arith);
        }
        assert(spec_fp_mul(0int, y * s) == 0) by {
            assert(0int * (y * s) == 0) by (nonlinear_arith);
        }
        assert(spec_fp_mul(s, s) == s);
    }
    assert(u.0 * u.0 >= 0 && u.1 * u.1 >= 0) by (nonlinear_arith);
    assert(crate::vec_ops::spec_norm_sq(u) >= s * s);
    crate::vec_ops::lemma_normalize3_unit(u);
}

/// Law (idempotence): a well-formed camera's state is a function of its
/// pose, field of view and image size alone. In particular, resizing a
/// camera to its current size, which keeps all three, leaves the
/// intrinsic matrix, its inverse and every generated ray unchanged.
pub proof fn lemma_resize_idempotent(c1: Camera, c2: Camera)
    requires
        c1.wf(),
        c2.wf(),
        c1.transform == c2.transform,
        c1.tanHalfFov == c2.tanHalfFov,
        c1.imageWidth == c2.imageWidth,
        c1.imageHeight == c2.imageHeight,
    ensures
        c1 == c2,
        forall|x: int, y: int| spec_ray_dir(c1, x, y) == spec_ray_dir(c2, x, y),
{
    assert(c1.cameraMatrix == c2.cameraMatrix);
    assert(c1.cameraMatrixInverse == c2.cameraMatrixInverse);
}

} // verus!
