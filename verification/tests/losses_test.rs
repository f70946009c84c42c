use ffnet::losses::{binary_crossentropy_derivative, categorical_crossentropy_derivative, mse,
    mse_derivative, squared_error, squared_error_derivative};
use ffnet::matrix::Matrix;

/// One fixed-point unit: the stored value of 1.0.
const ONE: i64 = 1_000_000;

#[test]
fn test_mse() {
    let expected = Matrix::from_vec(1, 2, vec![ONE, 500_000]);
    let predicted = Matrix::from_vec(1, 2, vec![500_000, 500_000]);
    // Squared differences sum to 0.25 over two columns: 0.125.
    assert_eq!(mse(&expected, &predicted), 125_000);
    assert_eq!(
        mse_derivative(&expected, &predicted),
        Matrix::from_vec(1, 2, vec![-500_000, 0])
    );
}

#[test]
fn test_squared_error() {
    let expected = Matrix::from_vec(1, 1, vec![ONE]);
    let predicted = Matrix::from_vec(1, 1, vec![500_000]);
    // Half of 0.25.
    assert_eq!(squared_error(&expected, &predicted), 125_000);
    assert_eq!(
        squared_error_derivative(&expected, &predicted),
        Matrix::from_vec(1, 1, vec![-500_000])
    );
}

#[test]
fn test_categorical_crossentropy_derivative() {
    let expected = Matrix::from_vec(1, 1, vec![ONE]);
    let predicted = Matrix::from_vec(1, 1, vec![500_000]);
    assert_eq!(
        categorical_crossentropy_derivative(&expected, &predicted),
        Matrix::from_vec(1, 1, vec![500_000])
    );
}

#[test]
fn test_binary_crossentropy_derivative() {
    let expected = Matrix::from_vec(2, 1, vec![ONE, 0]);
    let predicted = Matrix::from_vec(2, 1, vec![800_000, 250_000]);
    let d = binary_crossentropy_derivative(&expected, &predicted);
    // -(1 / 0.8) and (1 / 0.75), truncated toward zero.
    assert_eq!(d.get(0, 0), -1_250_000);
    assert_eq!(d.get(1, 0), 1_333_333);
}
