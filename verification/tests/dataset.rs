use mlp::dataset::{one_hot, split, tally, train_share, Tally};
use mlp::error::Error;
use mlp::linalg::Matrix;

#[test]
fn one_hot_marks_the_matching_category() {
    assert_eq!(one_hot(&"M", &["M", "F"], 1.0, 0.0), Ok(vec![1.0, 0.0]));
    assert_eq!(one_hot(&"F", &["M", "F"], 1.0, 0.0), Ok(vec![0.0, 1.0]));
    assert_eq!(
        one_hot(&"NAP", &["ATA", "ASY", "NAP", "TA"], 1.0, 0.0),
        Ok(vec![0.0, 0.0, 1.0, 0.0])
    );
    assert_eq!(one_hot(&3, &[1, 2, 3], true, false), Ok(vec![false, false, true]));
}

#[test]
fn one_hot_refuses_a_value_outside_the_categories() {
    assert_eq!(one_hot(&"X", &["M", "F"], 1.0, 0.0), Err(Error::InvalidCategory));
    assert_eq!(one_hot(&"", &["Flat", "Up", "Down"], 1.0, 0.0), Err(Error::InvalidCategory));
    assert_eq!(one_hot::<&str, f64>(&"M", &[], 1.0, 0.0), Err(Error::InvalidCategory));
}

#[test]
fn train_share_is_four_fifths() {
    assert_eq!(train_share(0), 0);
    assert_eq!(train_share(1), 0);
    assert_eq!(train_share(4), 3);
    assert_eq!(train_share(5), 4);
    assert_eq!(train_share(6), 4);
    assert_eq!(train_share(918), 734);
    assert_eq!(train_share(usize::MAX), usize::MAX / 5 * 4);
}

#[test]
fn split_keeps_the_order_of_the_rows() {
    let values: Vec<f64> = (0..12).map(|k| k as f64).collect();
    let data = Matrix::from(6, 2, &values).unwrap();
    let (train, test) = split(&data);
    assert_eq!(train, Matrix::from(4, 2, &values[..8]).unwrap());
    assert_eq!(test, Matrix::from(2, 2, &values[8..]).unwrap());
    let (train, test) = split(&Matrix::<f64>::new(0, 3));
    assert_eq!(train.size(), (0, 3));
    assert_eq!(test.size(), (0, 3));
    let (train, test) = split(&Matrix::<f64>::new(1, 3));
    assert_eq!(train.size(), (0, 3));
    assert_eq!(test.size(), (1, 3));
}

#[test]
fn tally_counts_the_correct_predictions() {
    let samples = [
        (Some(true), Some(true)),
        (Some(true), Some(false)),
        (Some(false), Some(false)),
        (Some(false), Some(true)),
        (None, Some(true)),
        (Some(true), None),
    ];
    assert_eq!(
        tally(&samples),
        Tally { samples: 6, positives: 3, true_positives: 1, true_negatives: 1 }
    );
    assert_eq!(
        tally(&[]),
        Tally { samples: 0, positives: 0, true_positives: 0, true_negatives: 0 }
    );
}
