//! A known-scene regression: a camera at (0, 0, 10) looking toward the
//! origin, facing a unit sphere centered there, must hit at the image
//! center with a surface normal of approximately (0, 0, 1).

use venom::camera::Camera;
use venom::fixed::FP_ONE;
use venom::renderer::{render_image, render_tiled, HitRecord};
use venom::vec_ops::Mat4;

const S: i64 = FP_ONE;

fn identity4() -> Mat4 {
    Mat4 {
        r0: (S, 0, 0, 0),
        r1: (0, S, 0, 0),
        r2: (0, 0, S, 0),
        r3: (0, 0, 0, S),
    }
}

fn to_real(v: i64) -> f64 {
    v as f64 / S as f64
}

fn to_fixed(v: f64) -> i64 {
    (v * S as f64).round() as i64
}

/// The test's stand-in for the intersection backend: a unit sphere at
/// the origin, answering with the geometric normal at the hit.
fn cast_against_unit_sphere(
    origin: (f64, f64, f64),
    dir: (f64, f64, f64),
) -> Option<HitRecord> {
    let (ox, oy, oz) = origin;
    let (dx, dy, dz) = dir;
    let a = dx * dx + dy * dy + dz * dz;
    let b = 2.0 * (ox * dx + oy * dy + oz * dz);
    let c = ox * ox + oy * oy + oz * oz - 1.0;
    let disc = b * b - 4.0 * a * c;
    if disc < 0.0 {
        return None;
    }
    let t = (-b - disc.sqrt()) / (2.0 * a);
    if t < 0.0 {
        return None;
    }
    let n = (ox + t * dx, oy + t * dy, oz + t * dz);
    Some(HitRecord { normal: (to_fixed(n.0), to_fixed(n.1), to_fixed(n.2)) })
}

#[test]
fn camera_facing_a_unit_sphere_hits_at_the_image_center() {
    let (w, h) = (101u32, 101u32);
    let mut cam = Camera::new(identity4(), S, w, h).unwrap();
    // half a turn about the y axis: the camera's +z convention now
    // looks along world -z, toward the origin
    cam.setRotation(&(0, S, 0), 0, -S);
    cam.setTranslation(&(0, 0, 10 * S));
    let rays = cam.getTransformedRays();
    assert_eq!(rays.len(), (w * h) as usize);

    let hits: Vec<Option<HitRecord>> = rays
        .iter()
        .map(|r| {
            cast_against_unit_sphere(
                (to_real(r.origin.0), to_real(r.origin.1), to_real(r.origin.2)),
                (to_real(r.direction.0), to_real(r.direction.1), to_real(r.direction.2)),
            )
        })
        .collect();

    // the central ray strikes the sphere head on
    let center = (50 * w + 50) as usize;
    let hit = hits[center].expect("the central ray must hit the sphere");
    assert!(to_real(hit.normal.0).abs() < 0.05);
    assert!(to_real(hit.normal.1).abs() < 0.05);
    assert!(to_real(hit.normal.2) > 0.95);

    // a corner ray misses a unit sphere seen from ten units away
    assert!(hits[0].is_none());

    // the rendered center pixel shows that normal: blue, upright
    let img = render_image(w, h, &hits);
    let px = center * 3;
    assert!(img[px] < 15); // red from |n.x|
    assert!(img[px + 1] < 15); // green from |n.y|
    assert!(img[px + 2] > 240); // blue from n.z
    assert_eq!((img[0], img[1], img[2]), (255, 0, 255)); // background corner

    // the same frame, tiled over workers whose count does not divide
    // the width, is byte-identical
    let tiled = render_tiled(w, h, 4, &hits);
    assert_eq!(tiled, img);
}
