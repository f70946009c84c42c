use ffnet::matrix::Matrix;

/// One fixed-point unit: the stored value of 1.0.
const ONE: i64 = 1_000_000;

#[test]
fn test_from_vec_is_column_major() {
    let m = Matrix::from_vec(2, 3, vec![1, 2, 3, 4, 5, 6]);
    assert_eq!(m.nrows(), 2);
    assert_eq!(m.ncols(), 3);
    assert_eq!(m.get(0, 0), 1);
    assert_eq!(m.get(1, 0), 2);
    assert_eq!(m.get(0, 1), 3);
    assert_eq!(m.get(1, 1), 4);
    assert_eq!(m.get(0, 2), 5);
    assert_eq!(m.get(1, 2), 6);
}

#[test]
fn test_mat_mul() {
    let a = Matrix::from_vec(2, 2, vec![ONE, 3 * ONE, 2 * ONE, 4 * ONE]);
    let b = Matrix::from_vec(2, 1, vec![5 * ONE, 6 * ONE]);
    // [[1, 2], [3, 4]] * [5, 6] = [17, 39]
    assert_eq!(a.mat_mul(&b), Matrix::from_vec(2, 1, vec![17 * ONE, 39 * ONE]));
}

#[test]
fn test_mat_transpose() {
    let a = Matrix::from_vec(2, 3, vec![1, 2, 3, 4, 5, 6]);
    let t = a.mat_transpose();
    assert_eq!(t.nrows(), 3);
    assert_eq!(t.ncols(), 2);
    for r in 0..2 {
        for c in 0..3 {
            assert_eq!(a.get(r, c), t.get(c, r));
        }
    }
}

#[test]
fn test_elementwise_ops() {
    let a = Matrix::from_vec(1, 2, vec![2 * ONE, -3 * ONE]);
    let b = Matrix::from_vec(1, 2, vec![500_000, ONE]);
    assert_eq!(a.mat_add(&b), Matrix::from_vec(1, 2, vec![2_500_000, -2 * ONE]));
    assert_eq!(a.mat_sub(&b), Matrix::from_vec(1, 2, vec![1_500_000, -4 * ONE]));
    assert_eq!(a.mat_hadamard(&b), Matrix::from_vec(1, 2, vec![ONE, -3 * ONE]));
    assert_eq!(a.mat_scale(500_000), Matrix::from_vec(1, 2, vec![ONE, -1_500_000]));
    assert_eq!(a.mat_divn(2), Matrix::from_vec(1, 2, vec![ONE, -1_500_000]));
    assert_eq!(a.mat_sum(), -ONE);
}

#[test]
fn test_mat_add_bias() {
    let a = Matrix::from_vec(2, 2, vec![1, 2, 3, 4]);
    let bias = Matrix::from_vec(2, 1, vec![10, 20]);
    let r = a.mat_add_bias(&bias);
    assert_eq!(r, Matrix::from_vec(2, 2, vec![11, 22, 13, 24]));
}

#[test]
fn test_addition_wraps() {
    // Scalar arithmetic is total: past the largest value it wraps around,
    // two's-complement style.
    let a = Matrix::from_vec(1, 1, vec![i64::MAX]);
    let b = Matrix::from_vec(1, 1, vec![1]);
    assert_eq!(a.mat_add(&b).get(0, 0), i64::MIN);
    let c = Matrix::from_vec(1, 1, vec![i64::MIN]);
    assert_eq!(c.mat_sub(&b).get(0, 0), i64::MAX);
}

#[test]
fn test_mat_sqrt_guard() {
    // The square root of 4.0 plus one guard epsilon, in millionths.
    let a = Matrix::from_vec(1, 1, vec![4 * ONE]);
    let r = a.mat_sqrt_guard();
    // isqrt(4_000_001 * 1_000_000) == 2_000_000 exactly.
    assert_eq!(r.get(0, 0), 2_000_000);
    // Negative entries are guarded to the root of the epsilon alone.
    let n = Matrix::from_vec(1, 1, vec![-5]);
    assert_eq!(n.mat_sqrt_guard().get(0, 0), 0);
}
