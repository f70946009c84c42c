use ffnet::activations::Activation;
use ffnet::layer::Layer;
use ffnet::matrix::Matrix;

/// One fixed-point unit: the stored value of 1.0.
const ONE: i64 = 1_000_000;

#[test]
fn test_forward() {
    let mut layer = Layer::from(
        Activation::Identity,
        Matrix::from_vec(3, 1, vec![ONE, ONE, ONE]),
        Matrix::from_vec(3, 2, vec![500_000, 100_000, 700_000, 500_000, 100_000, 700_000]),
    );

    let data = Matrix::from_vec(2, 1, vec![0, ONE]);

    let r = layer.forward(&data);

    assert_eq!(r, Matrix::from_vec(3, 1, vec![1_500_000, 1_100_000, 1_700_000]));
}

#[test]
fn test_forward_caches_output() {
    let mut layer = Layer::from(
        Activation::Identity,
        Matrix::from_vec(2, 1, vec![0, 0]),
        Matrix::from_vec(2, 2, vec![ONE, 0, 0, ONE]),
    );
    let data = Matrix::from_vec(2, 1, vec![250_000, -750_000]);
    let r = layer.forward(&data);
    assert_eq!(r, data);
    assert_eq!(*layer.get_last_output(), data);
}

#[test]
fn test_propagate_error_shapes() {
    // After a forward pass, one chain-rule step produces a weight gradient
    // of the weight shape and an error signal of the bias shape.
    let mut layer = Layer::from(
        Activation::Relu,
        Matrix::from_vec(3, 1, vec![0, 0, 0]),
        Matrix::from_vec(3, 2, vec![ONE, ONE, ONE, -ONE, -ONE, -ONE]),
    );
    let data = Matrix::from_vec(2, 1, vec![ONE, 2 * ONE]);
    let _ = layer.forward(&data);
    let seed = Matrix::from_vec(3, 1, vec![100_000, 200_000, 300_000]);
    let unused = Matrix::zeros(0, 0);
    let (gradient, signal) = layer.propagate_error(true, &seed, &unused, &data);
    assert_eq!(gradient.nrows(), 3);
    assert_eq!(gradient.ncols(), 2);
    assert_eq!(signal.nrows(), 3);
    assert_eq!(signal.ncols(), 1);
    layer.sum_errors_and_deltas(&signal, &gradient);
    let errors = layer.get_errors_clone();
    let deltas = layer.get_deltas_clone();
    assert_eq!(errors.nrows(), 3);
    assert_eq!(errors.ncols(), 2);
    assert_eq!(deltas.nrows(), 3);
    assert_eq!(deltas.ncols(), 1);
}

#[test]
fn test_accumulation_linearity() {
    // Accumulating two gradients one at a time equals accumulating their
    // sum once.
    let weights = Matrix::from_vec(2, 2, vec![ONE, 0, 0, ONE]);
    let biases = Matrix::from_vec(2, 1, vec![0, 0]);
    let g1 = Matrix::from_vec(2, 2, vec![10, 20, 30, 40]);
    let g2 = Matrix::from_vec(2, 2, vec![5, -7, 11, -13]);
    let d1 = Matrix::from_vec(2, 1, vec![100, 200]);
    let d2 = Matrix::from_vec(2, 1, vec![-50, 75]);

    let mut one_at_a_time = Layer::from(Activation::Identity, biases.clone(), weights.clone());
    one_at_a_time.sum_errors_and_deltas(&d1, &g1);
    one_at_a_time.sum_errors_and_deltas(&d2, &g2);

    let mut all_at_once = Layer::from(Activation::Identity, biases, weights);
    all_at_once.sum_errors_and_deltas(&d1.mat_add(&d2), &g1.mat_add(&g2));

    assert_eq!(one_at_a_time.get_errors_clone(), all_at_once.get_errors_clone());
    assert_eq!(one_at_a_time.get_deltas_clone(), all_at_once.get_deltas_clone());
}

#[test]
fn test_clear_error_and_delta() {
    // Clearing leaves the accumulators as exact zero matrices.
    let mut layer = Layer::from(
        Activation::Identity,
        Matrix::from_vec(2, 1, vec![ONE, ONE]),
        Matrix::from_vec(2, 3, vec![1, 2, 3, 4, 5, 6]),
    );
    let g = Matrix::from_vec(2, 3, vec![9, 9, 9, 9, 9, 9]);
    let d = Matrix::from_vec(2, 1, vec![9, 9]);
    layer.sum_errors_and_deltas(&d, &g);
    layer.clear_error_and_delta();
    assert_eq!(layer.get_errors_clone(), Matrix::zeros(2, 3));
    assert_eq!(layer.get_deltas_clone(), Matrix::zeros(2, 1));
}

#[test]
fn test_update_params_steps_once() {
    // The plain-gradient update steps the weights by the learning rate
    // times the mean accumulated gradient, then clears.
    let mut layer = Layer::from(
        Activation::Identity,
        Matrix::from_vec(1, 1, vec![ONE]),
        Matrix::from_vec(1, 1, vec![ONE]),
    );
    let g = Matrix::from_vec(1, 1, vec![400_000]);
    let d = Matrix::from_vec(1, 1, vec![200_000]);
    layer.sum_errors_and_deltas(&d, &g);
    let before = layer.get_weights_reference().clone();
    assert_eq!(before.get(0, 0), ONE);
    layer.update_params(500_000, 1);
    // 1.0 - 0.5 * 0.4 = 0.8 and 1.0 - 0.5 * 0.2 = 0.9
    assert_eq!(layer.get_weights_reference().get(0, 0), 800_000);
    assert_eq!(layer.get_biases_clone().get(0, 0), 900_000);
    assert_eq!(layer.get_errors_clone(), Matrix::zeros(1, 1));
    assert_eq!(layer.get_deltas_clone(), Matrix::zeros(1, 1));
}

#[test]
fn test_layer_new_is_seeded() {
    // Random initialization is a function of the seed alone.
    let mut rng1 = ffnet::random::RandomSource::new(42);
    let mut rng2 = ffnet::random::RandomSource::new(42);
    let l1 = Layer::new(Activation::Relu, 3, 4, &mut rng1);
    let l2 = Layer::new(Activation::Relu, 3, 4, &mut rng2);
    assert_eq!(l1.get_weights_reference(), l2.get_weights_reference());
    assert_eq!(l1.get_biases_clone(), l2.get_biases_clone());
    assert_eq!(l1.get_input_dim(), 3);
    assert_eq!(l1.get_output_dim(), 4);

    let mut rng3 = ffnet::random::RandomSource::new(43);
    let l3 = Layer::new(Activation::Relu, 3, 4, &mut rng3);
    assert_ne!(l1.get_weights_reference(), l3.get_weights_reference());
}
