use ffnet::matrix::Matrix;
use ffnet::metrics::{calculate_confusion_matrix, get_class_confusion_matrices, metric_score,
    ClassConfusionMatrix, Metric};

/// One fixed-point unit: the stored value of 1.0.
const ONE: i64 = 1_000_000;

#[test]
fn test_calculate_confusion_matrix() {
    let y_pred = vec![
        Matrix::from_vec(3, 1, vec![50_000, 950_000, 200_000]),
        Matrix::from_vec(3, 1, vec![730_000, 550_000, 100_000]),
        Matrix::from_vec(3, 1, vec![100_000, 500_000, 950_000]),
        Matrix::from_vec(3, 1, vec![200_000, 400_000, 850_000]),
    ];

    let y_true = vec![
        Matrix::from_vec(3, 1, vec![0, ONE, 0]),
        Matrix::from_vec(3, 1, vec![ONE, 0, 0]),
        Matrix::from_vec(3, 1, vec![0, 0, ONE]),
        Matrix::from_vec(3, 1, vec![0, ONE, 0]),
    ];

    let confusion_matrix = calculate_confusion_matrix(&y_pred, &y_true);

    assert_eq!(
        Matrix::from_vec(3, 3, vec![1, 0, 0, 0, 1, 0, 0, 1, 1]),
        confusion_matrix
    );
}

#[test]
fn test_metrics() {
    let confusion_matrix = Matrix::from_vec(3, 3, vec![1, 0, 0, 0, 1, 0, 0, 1, 1]);

    let class_confusion_matrices = get_class_confusion_matrices(&confusion_matrix);

    assert_eq!(ONE, class_confusion_matrices[0].precision());
    assert_eq!(ONE, class_confusion_matrices[1].precision());
    assert_eq!(500_000, class_confusion_matrices[2].precision());

    assert_eq!(ONE, class_confusion_matrices[0].recall());
    assert_eq!(500_000, class_confusion_matrices[1].recall());
    assert_eq!(ONE, class_confusion_matrices[2].recall());

    assert_eq!(ONE, class_confusion_matrices[0].f1_score());
    assert_eq!(666_666, class_confusion_matrices[1].f1_score());
    assert_eq!(666_666, class_confusion_matrices[2].f1_score());

    let overall_accuracy = metric_score(Metric::Accuracy, &confusion_matrix);
    assert_eq!(750_000, overall_accuracy);

    assert_eq!(833_333, metric_score(Metric::Precision, &confusion_matrix));
    assert_eq!(833_333, metric_score(Metric::Recall, &confusion_matrix));
    assert_eq!(777_777, metric_score(Metric::F1, &confusion_matrix));
}

#[test]
fn test_class_confusion_matrix_counts() {
    // Column sums are predicted positives, row sums actual positives.
    let cm = Matrix::from_vec(2, 2, vec![5, 2, 1, 7]);
    let c0 = ClassConfusionMatrix::new(&cm, 0);
    assert_eq!(c0.true_positives, 5);
    assert_eq!(c0.false_positives, 2);
    assert_eq!(c0.false_negatives, 1);
    assert_eq!(c0.true_negatives, 7);
    let c1 = ClassConfusionMatrix::new(&cm, 1);
    assert_eq!(c1.true_positives, 7);
    assert_eq!(c1.false_positives, 1);
    assert_eq!(c1.false_negatives, 2);
    assert_eq!(c1.true_negatives, 5);
}

#[test]
fn test_empty_class_confusion_matrix() {
    let e = ClassConfusionMatrix::empty();
    assert_eq!(e.true_positives, 0);
    assert_eq!(e.false_positives, 0);
    assert_eq!(e.false_negatives, 0);
    assert_eq!(e.true_negatives, 0);
    assert_eq!(e.precision(), 0);
    assert_eq!(e.recall(), 0);
    assert_eq!(e.f1_score(), 0);
    let copy = e.clone();
    assert_eq!(copy, e);
}
