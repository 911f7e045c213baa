use venom::fixed::{fp_div, fp_mul, isqrt_u128, FP_ONE};
use venom::vec_ops::{
    mat3_mul_vec3, mat4_mul_vec4, normalize2, normalize3, normalize4, AppendOne, Mat3, Mat4,
    Normalize, ScalarOperations, Transform, VectorOperations, Zeros,
};

const S: i64 = FP_ONE;

fn fp(x: f64) -> i64 {
    (x * 65536.0).round() as i64
}

#[test]
fn fp_mul_exact_values() {
    assert_eq!(fp_mul(3 * S, 2 * S), 6 * S);
    assert_eq!(fp_mul(fp(1.5), fp(1.5)), fp(2.25));
    // rounding is toward zero on either sign
    assert_eq!(fp_mul(-fp(1.5), fp(1.5)), -fp(2.25));
    assert_eq!(fp_mul(1, 1), 0);
    assert_eq!(fp_mul(-1, 1), 0);
}

#[test]
fn fp_div_exact_values() {
    assert_eq!(fp_div(6 * S, 2 * S), 3 * S);
    assert_eq!(fp_div(-6 * S, 2 * S), -3 * S);
    assert_eq!(fp_div(S, 3 * S), 21845); // 65536 / 3, rounded toward zero
}

#[test]
fn isqrt_values() {
    assert_eq!(isqrt_u128(0), 0);
    assert_eq!(isqrt_u128(1), 1);
    assert_eq!(isqrt_u128(15), 3);
    assert_eq!(isqrt_u128(16), 4);
    assert_eq!(isqrt_u128(1 << 40), 1 << 20);
    assert_eq!(isqrt_u128((1 << 40) - 1), (1 << 20) - 1);
}

#[test]
fn normalize_axis_vectors() {
    assert_eq!(normalize3((S, 0, 0)), (S, 0, 0));
    assert_eq!(normalize3((0, -7 * S, 0)), (0, -S, 0));
    assert_eq!(normalize3((0, 0, 0)), (0, 0, 0));
}

#[test]
fn normalize_three_four_five() {
    // A 3-4-5 triangle normalizes exactly up to truncation.
    let r = normalize3((3 * S, 4 * S, 0));
    assert_eq!(r, (39321, 52428, 0)); // 0.6 and 0.8 in fixed point, truncated
}

#[test]
fn normalized_vectors_are_unit_length() {
    // every direction of length >= 1 comes back unit length within tolerance
    let cases = [
        (3 * S, 4 * S, 5 * S),
        (S, S, S),
        (-2 * S, 7 * S, -1 * S),
        (S, 0, 1),
        (123456, -654321, 777777),
    ];
    for &(x, y, z) in cases.iter() {
        let (rx, ry, rz) = normalize3((x, y, z));
        let norm_sq = (rx as i128) * (rx as i128) + (ry as i128) * (ry as i128)
            + (rz as i128) * (rz as i128);
        let unit = (S as i128) * (S as i128);
        assert!(norm_sq <= unit + 3 * (S as i128), "norm too long for {:?}", (x, y, z));
        assert!(norm_sq >= unit - 6 * (S as i128) - 3, "norm too short for {:?}", (x, y, z));
    }
}

#[test]
fn matrix_vector_application() {
    let id = Mat3 { r0: (S, 0, 0), r1: (0, S, 0), r2: (0, 0, S) };
    assert_eq!(mat3_mul_vec3(&id, (fp(1.5), -2 * S, 3 * S)), (fp(1.5), -2 * S, 3 * S));
    let flip = Mat3 { r0: (-S, 0, 0), r1: (0, S, 0), r2: (0, 0, -S) };
    assert_eq!(mat3_mul_vec3(&flip, (S, 2 * S, 3 * S)), (-S, 2 * S, -3 * S));
}

#[test]
fn transform_collection() {
    let flip = Mat3 { r0: (-S, 0, 0), r1: (0, S, 0), r2: (0, 0, -S) };
    let pts: Vec<(i64, i64, i64)> = vec![(S, 0, 0), (0, 0, 2 * S)];
    assert_eq!(pts.transform(&flip), vec![(-S, 0, 0), (0, 0, -2 * S)]);
}

#[test]
fn normalize_collection() {
    let pts: Vec<(i64, i64, i64)> = vec![(5 * S, 0, 0), (0, 0, 0)];
    assert_eq!(pts.normalize(), vec![(S, 0, 0), (0, 0, 0)]);
}

#[test]
fn append_one_and_zeros() {
    let uv: Vec<(i64, i64)> = vec![(3, 4), (5, 6)];
    assert_eq!(uv.append_one(), vec![(3, 4, S), (5, 6, S)]);
    let pts: Vec<(i64, i64, i64)> = vec![(1, 2, 3), (4, 5, 6)];
    assert_eq!(pts.zeros(), vec![(0, 0, 0), (0, 0, 0)]);
}

#[test]
fn scalar_operations() {
    let pts: Vec<(i64, i64, i64)> = vec![(S, 2 * S, 3 * S)];
    assert_eq!(pts.add_scalar(S), vec![(2 * S, 3 * S, 4 * S)]);
    assert_eq!(pts.sub_scalar(S), vec![(0, S, 2 * S)]);
    assert_eq!(pts.mul_scalar(2 * S), vec![(2 * S, 4 * S, 6 * S)]);
    assert_eq!(pts.div_scalar(2 * S), vec![(S / 2, S, 3 * S / 2)]);
}

#[test]
fn vector_operations() {
    let pts: Vec<(i64, i64, i64)> = vec![(S, 2 * S, 3 * S)];
    assert_eq!(pts.add_vector((S, S, -S)), vec![(2 * S, 3 * S, 2 * S)]);
    assert_eq!(pts.mul_vector((2 * S, S, 0)), vec![(2 * S, 2 * S, 0)]);
    assert_eq!(pts.div_vector((2 * S, S, 3 * S)), vec![(S / 2, 2 * S, S)]);
}

#[test]
fn pair_and_quadruple_normalization() {
    assert_eq!(normalize2((3 * S, 4 * S)), (39321, 52428));
    assert_eq!(normalize2((0, 0)), (0, 0));
    assert_eq!(normalize4((0, 0, 5 * S, 0)), (0, 0, S, 0));
    let pairs: Vec<(i64, i64)> = vec![(0, -2 * S)];
    assert_eq!(pairs.normalize(), vec![(0, -S)]);
    let quads: Vec<(i64, i64, i64, i64)> = vec![(7 * S, 0, 0, 0)];
    assert_eq!(quads.normalize(), vec![(S, 0, 0, 0)]);
}

#[test]
fn homogeneous_transform_collection() {
    let flip = Mat4 {
        r0: (-S, 0, 0, 0),
        r1: (0, S, 0, 0),
        r2: (0, 0, -S, 0),
        r3: (0, 0, 0, S),
    };
    assert_eq!(mat4_mul_vec4(&flip, (S, 2 * S, 3 * S, S)), (-S, 2 * S, -3 * S, S));
    let pts: Vec<(i64, i64, i64, i64)> = vec![(S, 0, 0, S)];
    assert_eq!(pts.transform(&flip), vec![(-S, 0, 0, S)]);
}

#[test]
fn pair_and_quadruple_element_wise_operations() {
    let pairs: Vec<(i64, i64)> = vec![(S, 2 * S)];
    assert_eq!(pairs.add_scalar(S), vec![(2 * S, 3 * S)]);
    assert_eq!(pairs.sub_scalar(S), vec![(0, S)]);
    assert_eq!(pairs.mul_scalar(2 * S), vec![(2 * S, 4 * S)]);
    assert_eq!(pairs.div_scalar(2 * S), vec![(S / 2, S)]);
    assert_eq!(pairs.add_vector((S, -S)), vec![(2 * S, S)]);
    assert_eq!(pairs.mul_vector((2 * S, 0)), vec![(2 * S, 0)]);
    assert_eq!(pairs.div_vector((S, 2 * S)), vec![(S, S)]);
    assert_eq!(pairs.zeros(), vec![(0, 0)]);
    let quads: Vec<(i64, i64, i64, i64)> = vec![(S, 2 * S, 3 * S, 4 * S)];
    assert_eq!(quads.add_scalar(S), vec![(2 * S, 3 * S, 4 * S, 5 * S)]);
    assert_eq!(quads.mul_scalar(S / 2), vec![(S / 2, S, 3 * S / 2, 2 * S)]);
    assert_eq!(quads.div_vector((S, S, S, 2 * S)), vec![(S, 2 * S, 3 * S, 2 * S)]);
    assert_eq!(quads.zeros(), vec![(0, 0, 0, 0)]);
    let triples: Vec<(i64, i64, i64)> = vec![(1, 2, 3)];
    assert_eq!(triples.append_one(), vec![(1, 2, 3, S)]);
}
