use venom::camera::{Camera, CameraError, ComputeCameraMatrix, GenerateHomogenousPixelCoordinates};
use venom::fixed::FP_ONE;
use venom::vec_ops::Mat4;

const S: i64 = FP_ONE;

fn identity4() -> Mat4 {
    Mat4 {
        r0: (S, 0, 0, 0),
        r1: (0, S, 0, 0),
        r2: (0, 0, S, 0),
        r3: (0, 0, 0, S),
    }
}

#[test]
fn intrinsics_for_a_square_half_angle() {
    // tan of the half vertical angle is exactly one (a 90 degree fov)
    let m = ComputeCameraMatrix(S, 640, 480).unwrap();
    assert_eq!(m.r1.1, 479 * 32768); // fy = (h-1) / 2
    assert_eq!(m.r0.0, 639 * 24576); // fx = (w-1) * h / (2 w) = 639 * 0.375
    assert_eq!(m.r0.2, 639 * 32768); // cx = (w-1) / 2
    assert_eq!(m.r1.2, 479 * 32768); // cy = (h-1) / 2
    assert_eq!(m.r0.1, 0);
    assert_eq!(m.r2.0, 0);
    assert_eq!(m.r2.2, S);
}

#[test]
fn degenerate_configurations_fail_fast() {
    assert_eq!(ComputeCameraMatrix(S, 0, 480), Err(CameraError::InvalidDimensions));
    assert_eq!(ComputeCameraMatrix(S, 640, 1), Err(CameraError::InvalidDimensions));
    assert_eq!(ComputeCameraMatrix(0, 640, 480), Err(CameraError::DegenerateFov));
    assert_eq!(ComputeCameraMatrix(-S, 640, 480), Err(CameraError::DegenerateFov));
    // a tangent too large for any invertible fixed-point intrinsics
    assert_eq!(ComputeCameraMatrix(i64::MAX, 640, 480), Err(CameraError::DegenerateFov));
    assert!(Camera::new(identity4(), S, 0, 480).is_err());
}

#[test]
fn pixel_coordinates_are_row_major() {
    let pcs = GenerateHomogenousPixelCoordinates(3, 2);
    assert_eq!(pcs.len(), 6);
    assert_eq!(pcs[0], (0, 0, S));
    assert_eq!(pcs[1], (S, 0, S));
    assert_eq!(pcs[2], (2 * S, 0, S));
    assert_eq!(pcs[3], (0, S, S));
    assert_eq!(pcs[5], (2 * S, S, S));
}

#[test]
fn rays_count_and_unit_length() {
    let cam = Camera::new(identity4(), S, 8, 6).unwrap();
    let rays = cam.getRays();
    assert_eq!(rays.len(), 8 * 6);
    for r in rays.iter() {
        assert_eq!(r.origin, (0, 0, 0));
        let (x, y, z) = r.direction;
        let norm = (((x * x + y * y + z * z) as f64).sqrt()) / (S as f64);
        assert!((norm - 1.0).abs() < 0.01, "direction not unit length: {}", norm);
    }
}

#[test]
fn center_ray_points_along_positive_z() {
    // odd dimensions put one pixel exactly at the principal point
    let cam = Camera::new(identity4(), S, 3, 3).unwrap();
    let rays = cam.getRays();
    assert_eq!(rays[1 * 3 + 1].direction, (0, 0, S));
    // row 0 is the top of the image; its center pixel tilts toward -y
    assert!(rays[0 * 3 + 1].direction.1 < 0);
    assert!(rays[2 * 3 + 1].direction.1 > 0);
}

#[test]
fn resize_to_current_size_is_idempotent() {
    let mut cam = Camera::new(identity4(), S, 640, 480).unwrap();
    let before = cam;
    let rays_before = cam.getRays();
    cam.resize(640, 480).unwrap();
    assert_eq!(cam, before);
    assert_eq!(cam.getRays(), rays_before);
}

#[test]
fn resize_there_and_back_restores_the_state() {
    let mut cam = Camera::new(identity4(), S, 640, 480).unwrap();
    let before = cam;
    cam.resize(320, 240).unwrap();
    assert_ne!(cam, before);
    cam.resize(640, 480).unwrap();
    assert_eq!(cam, before);
}

#[test]
fn invalid_resize_changes_nothing() {
    let mut cam = Camera::new(identity4(), S, 640, 480).unwrap();
    let before = cam;
    assert_eq!(cam.resize(0, 480), Err(CameraError::InvalidDimensions));
    assert_eq!(cam, before);
}

#[test]
fn set_fov_recomputes_the_matrices() {
    let mut cam = Camera::new(identity4(), S, 640, 480).unwrap();
    cam.setFov(S / 2).unwrap();
    assert_eq!(cam.cameraMatrix.r1.1, 479 * 65536); // fy doubles
    assert_eq!(cam.setFov(0), Err(CameraError::DegenerateFov));
}

#[test]
fn rotation_about_y_by_half_a_turn_flips_x_and_z() {
    let mut cam = Camera::new(identity4(), S, 3, 3).unwrap();
    // angle pi: sine 0, cosine -1
    cam.setRotation(&(0, S, 0), 0, -S);
    assert_eq!((cam.transform.r0.0, cam.transform.r1.1, cam.transform.r2.2), (-S, S, -S));
    assert_eq!(cam.transform.r0.1, 0);
    assert_eq!(cam.transform.r2.0, 0);
    let rays = cam.getTransformedRays();
    // the central camera-space direction (0, 0, 1) now points along -z
    assert_eq!(rays[4].direction, (0, 0, -S));
}

#[test]
fn transformed_rays_share_the_translation_as_origin() {
    let mut cam = Camera::new(identity4(), S, 4, 4).unwrap();
    cam.setTranslation(&(S, 2 * S, 10 * S));
    let rays = cam.getTransformedRays();
    assert_eq!(rays.len(), 16);
    for r in rays.iter() {
        assert_eq!(r.origin, (S, 2 * S, 10 * S));
    }
}

#[test]
fn pixel_coordinates_of_an_empty_grid() {
    assert_eq!(GenerateHomogenousPixelCoordinates(0, 7).len(), 0);
    assert_eq!(GenerateHomogenousPixelCoordinates(7, 0).len(), 0);
}
