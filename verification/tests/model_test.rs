use ffnet::activations::Activation;
use ffnet::layer::Layer;
use ffnet::losses::Loss;
use ffnet::matrix::Matrix;
use ffnet::model::Model;
use ffnet::random::RandomSource;
use ffnet::rmsprop::RMSProp;

/// One fixed-point unit: the stored value of 1.0.
const ONE: i64 = 1_000_000;

fn two_layer_fixture() -> Model {
    // A 2-input hidden layer feeding a 2-output layer, both identity, with
    // the classic worked-example parameters.
    let hidden_layer = Layer::from(
        Activation::Identity,
        Matrix::from_vec(2, 1, vec![350_000, 350_000]),
        Matrix::from_vec(2, 2, vec![150_000, 200_000, 250_000, 300_000]),
    );
    let output_layer = Layer::from(
        Activation::Identity,
        Matrix::from_vec(2, 1, vec![600_000, 600_000]),
        Matrix::from_vec(2, 2, vec![400_000, 450_000, 500_000, 550_000]),
    );
    Model::new(vec![hidden_layer, output_layer], Loss::SquaredError)
}

#[test]
fn test_evaluate_two_layers() {
    let mut model = two_layer_fixture();
    let data = Matrix::from_vec(2, 1, vec![50_000, 100_000]);
    let out = model.evaluate(&data);
    // Hidden: [0.0325 + 0.35, 0.04 + 0.35]; output row by row from those.
    assert_eq!(out, Matrix::from_vec(2, 1, vec![948_000, 986_625]));
}

#[test]
fn test_fit_rmsprop_single_sample() {
    // The known-value update fixture: one sample, one epoch, batch size 1,
    // learning rate 0.5, decay 0.9. The first update's moving average is
    // one tenth of the squared gradient, so each parameter steps by the
    // learning rate times the gradient over its guarded root.
    let mut model = two_layer_fixture();
    let data = Matrix::from_vec(2, 1, vec![50_000, 100_000]);
    let target = Matrix::from_vec(2, 1, vec![10_000, 990_000]);
    let mut rmsprop = RMSProp::new(900_000);
    let mut rng = RandomSource::new(7);

    let losses = model.fit(
        1,
        1,
        500_000,
        &mut rmsprop,
        vec![data.clone()],
        vec![target],
        &mut rng,
    );

    assert_eq!(losses, vec![439_927]);

    let output = model.evaluate(&data);
    assert_eq!(output, Matrix::from_vec(2, 1, vec![2_257_853, -1_503_449]));
}

#[test]
fn test_fit_is_deterministic() {
    // Two runs from one seed give identical weights and losses.
    let data = vec![
        Matrix::from_vec(2, 1, vec![50_000, 100_000]),
        Matrix::from_vec(2, 1, vec![900_000, -200_000]),
        Matrix::from_vec(2, 1, vec![-300_000, 400_000]),
    ];
    let targets = vec![
        Matrix::from_vec(2, 1, vec![10_000, 990_000]),
        Matrix::from_vec(2, 1, vec![ONE, 0]),
        Matrix::from_vec(2, 1, vec![0, ONE]),
    ];

    let mut model1 = two_layer_fixture();
    let mut opt1 = RMSProp::new(900_000);
    let mut rng1 = RandomSource::new(2024);
    let losses1 = model1.fit(2, 3, 100_000, &mut opt1, data.clone(), targets.clone(), &mut rng1);

    let mut model2 = two_layer_fixture();
    let mut opt2 = RMSProp::new(900_000);
    let mut rng2 = RandomSource::new(2024);
    let losses2 = model2.fit(2, 3, 100_000, &mut opt2, data.clone(), targets.clone(), &mut rng2);

    assert_eq!(losses1, losses2);
    for i in 0..model1.layer_count() {
        assert_eq!(
            model1.get_layer_reference(i).get_weights_reference(),
            model2.get_layer_reference(i).get_weights_reference()
        );
        assert_eq!(
            model1.get_layer_reference(i).get_biases_clone(),
            model2.get_layer_reference(i).get_biases_clone()
        );
    }

    let probe = Matrix::from_vec(2, 1, vec![123_000, -45_000]);
    assert_eq!(model1.evaluate(&probe), model2.evaluate(&probe));
}

#[test]
fn test_backpropagation_leaves_weights_alone() {
    // Between samples of a batch, parameters are frozen: evaluation and
    // backpropagation only fill caches and accumulators.
    let mut model = two_layer_fixture();
    let before: Vec<Matrix> = (0..model.layer_count())
        .map(|i| model.get_layer_reference(i).get_weights_reference().clone())
        .collect();

    let data = Matrix::from_vec(2, 1, vec![50_000, 100_000]);
    let target = Matrix::from_vec(2, 1, vec![10_000, 990_000]);
    let prediction = model.evaluate(&data);
    model.backpropagation(&target, &data, &prediction);
    let data2 = Matrix::from_vec(2, 1, vec![-50_000, 70_000]);
    let target2 = Matrix::from_vec(2, 1, vec![ONE, 0]);
    let prediction2 = model.evaluate(&data2);
    model.backpropagation(&target2, &data2, &prediction2);

    for i in 0..model.layer_count() {
        assert_eq!(*model.get_layer_reference(i).get_weights_reference(), before[i]);
    }
    // The accumulators, by contrast, are no longer zero.
    assert_ne!(model.get_layer_reference(0).get_errors_clone(), Matrix::zeros(2, 2));
}

#[test]
fn test_shuffle_keeps_pairs() {
    // Whatever permutation is drawn, x and y move together.
    let mut x: Vec<i64> = (0..100).collect();
    let mut y: Vec<i64> = (0..100).map(|v| v * 10).collect();
    let mut rng = RandomSource::new(5);
    Model::shuffle_dataset(&mut x, &mut y, &mut rng);
    assert_eq!(x.len(), 100);
    for i in 0..100 {
        assert_eq!(y[i], x[i] * 10);
    }
    let mut sorted = x.clone();
    sorted.sort();
    let expected: Vec<i64> = (0..100).collect();
    assert_eq!(sorted, expected);
    // And the permutation is not the identity for this seed.
    assert_ne!(x, expected);
}

#[test]
fn test_model_test_reports_mean_loss() {
    let mut model = two_layer_fixture();
    let x = vec![Matrix::from_vec(2, 1, vec![50_000, 100_000])];
    let y = vec![Matrix::from_vec(2, 1, vec![10_000, 990_000])];
    let (mean_loss, predictions) = model.test(&x, &y);
    assert_eq!(mean_loss, 439_927);
    assert_eq!(predictions.len(), 1);
    assert_eq!(predictions[0], Matrix::from_vec(2, 1, vec![948_000, 986_625]));
}

#[test]
fn test_final_batch_may_be_shorter() {
    // Three samples at batch size two make two batches, the second of one
    // sample; the loop must handle it and report one loss per epoch.
    let data = vec![
        Matrix::from_vec(2, 1, vec![100_000, 200_000]),
        Matrix::from_vec(2, 1, vec![300_000, 400_000]),
        Matrix::from_vec(2, 1, vec![500_000, 600_000]),
    ];
    let targets = vec![
        Matrix::from_vec(2, 1, vec![ONE, 0]),
        Matrix::from_vec(2, 1, vec![0, ONE]),
        Matrix::from_vec(2, 1, vec![ONE, ONE]),
    ];
    let mut model = two_layer_fixture();
    let mut opt = RMSProp::new(900_000);
    let mut rng = RandomSource::new(11);
    let losses = model.fit(2, 4, 50_000, &mut opt, data, targets, &mut rng);
    assert_eq!(losses.len(), 4);
}

#[test]
fn test_oversized_batch_equals_full_batch() {
    // A batch size beyond the dataset length makes one batch of the whole
    // set, exactly as a batch size equal to the length does.
    let data = vec![
        Matrix::from_vec(2, 1, vec![100_000, 200_000]),
        Matrix::from_vec(2, 1, vec![300_000, 400_000]),
        Matrix::from_vec(2, 1, vec![500_000, 600_000]),
    ];
    let targets = vec![
        Matrix::from_vec(2, 1, vec![ONE, 0]),
        Matrix::from_vec(2, 1, vec![0, ONE]),
        Matrix::from_vec(2, 1, vec![ONE, ONE]),
    ];

    let mut model_a = two_layer_fixture();
    let mut opt_a = RMSProp::new(900_000);
    let mut rng_a = RandomSource::new(3);
    let losses_a = model_a.fit(5, 2, 50_000, &mut opt_a, data.clone(), targets.clone(), &mut rng_a);

    let mut model_b = two_layer_fixture();
    let mut opt_b = RMSProp::new(900_000);
    let mut rng_b = RandomSource::new(3);
    let losses_b = model_b.fit(3, 2, 50_000, &mut opt_b, data, targets, &mut rng_b);

    assert_eq!(losses_a, losses_b);
    let probe = Matrix::from_vec(2, 1, vec![77_000, -13_000]);
    assert_eq!(model_a.evaluate(&probe), model_b.evaluate(&probe));
}

#[test]
fn test_random_source_is_deterministic() {
    let mut a = RandomSource::new(99);
    let mut b = RandomSource::new(99);
    for bound in [1usize, 2, 10, 1000, 65_536] {
        assert_eq!(a.next_below(bound), b.next_below(bound));
    }
    let mut c = RandomSource::new(100);
    let draws_a: Vec<usize> = (0..16).map(|_| a.next_below(1_000_000)).collect();
    let draws_c: Vec<usize> = (0..16).map(|_| c.next_below(1_000_000)).collect();
    assert_ne!(draws_a, draws_c);
    for d in draws_a {
        assert!(d < 1_000_000);
    }
}
