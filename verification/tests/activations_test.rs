use ffnet::activations::{relu, relu_derivative, softmax_derivative, Activation};
use ffnet::matrix::Matrix;

/// One fixed-point unit: the stored value of 1.0.
const ONE: i64 = 1_000_000;

#[test]
fn test_relu() {
    let m = Matrix::from_vec(3, 1, vec![-ONE, 0, 2_500_000]);
    assert_eq!(relu(&m), Matrix::from_vec(3, 1, vec![0, 0, 2_500_000]));
    assert_eq!(relu_derivative(&m), Matrix::from_vec(3, 1, vec![0, 0, ONE]));
    assert_eq!(Activation::Relu.apply(&m), relu(&m));
    assert_eq!(Activation::Relu.derivative(&m), relu_derivative(&m));
}

#[test]
fn test_identity_activation() {
    let m = Matrix::from_vec(2, 2, vec![1, -2, 3, -4]);
    assert_eq!(Activation::Identity.apply(&m), m);
    assert_eq!(
        Activation::Identity.derivative(&m),
        Matrix::from_vec(2, 2, vec![ONE, ONE, ONE, ONE])
    );
}

#[test]
fn test_softmax_derivative() {
    // The elementwise Jacobian approximation: s * (1 - s) on the diagonal,
    // -s * s off it.
    let m = Matrix::from_vec(2, 2, vec![500_000, 300_000, 200_000, 400_000]);
    assert_eq!(
        softmax_derivative(&m),
        Matrix::from_vec(2, 2, vec![250_000, -90_000, -40_000, 240_000])
    );
}
