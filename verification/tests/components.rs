use linreg::errors::Error;
use linreg::fixed::{LIMIT, SCALE};
use linreg::loss::{mean_loss, row_loss};
use linreg::normalizer::{compute_factors, denormalize, normalize};
use linreg::predictor::{predict, prepend_bias};

fn scaled(v: i64) -> i64 {
    v * SCALE
}

fn reference_dataset() -> Vec<Vec<i64>> {
    vec![
        vec![scaled(2104), scaled(5), scaled(1), scaled(45), scaled(460)],
        vec![scaled(1416), scaled(3), scaled(2), scaled(40), scaled(232)],
        vec![scaled(1534), scaled(3), scaled(2), scaled(30), scaled(315)],
        vec![scaled(852), scaled(2), scaled(1), scaled(36), scaled(178)],
    ]
}

#[test]
fn factors_of_reference_dataset() {
    let fs = compute_factors(&reference_dataset()).unwrap();
    assert_eq!(
        fs,
        vec![scaled(2104), scaled(5), scaled(2), scaled(45), scaled(460)]
    );
}

#[test]
fn factors_use_largest_magnitude() {
    let t = vec![vec![scaled(-7), scaled(3)], vec![scaled(4), scaled(-1)]];
    let fs = compute_factors(&t).unwrap();
    assert_eq!(fs, vec![scaled(7), scaled(3)]);
}

#[test]
fn factors_empty_dataset_rejected() {
    let t: Vec<Vec<i64>> = Vec::new();
    assert_eq!(compute_factors(&t), Err(Error::EmptyDataset));
}

#[test]
fn factors_ragged_dataset_rejected() {
    let t = vec![vec![scaled(1), scaled(2)], vec![scaled(3)]];
    assert_eq!(compute_factors(&t), Err(Error::ShapeMismatch));
}

#[test]
fn factors_value_out_of_range_rejected() {
    let t = vec![vec![LIMIT + 1, scaled(2)]];
    assert_eq!(compute_factors(&t), Err(Error::OutOfRange));
}

#[test]
fn normalize_reference_dataset() {
    let t = reference_dataset();
    let fs = compute_factors(&t).unwrap();
    let nt = normalize(&t, &fs).unwrap();
    assert_eq!(
        nt,
        vec![
            vec![1000000000, 1000000000, 500000000, 1000000000, 1000000000],
            vec![673003802, 600000000, 1000000000, 888888888, 504347826],
            vec![729087452, 600000000, 1000000000, 666666666, 684782608],
            vec![404942965, 400000000, 500000000, 800000000, 386956521],
        ]
    );
}

#[test]
fn normalize_zero_factor_rejected() {
    // A dataset with an all-zero column: its factor is zero and normalizing
    // with it is refused instead of dividing by zero.
    let t = vec![vec![scaled(1), 0, scaled(3)], vec![scaled(2), 0, scaled(4)]];
    let fs = compute_factors(&t).unwrap();
    assert_eq!(fs[1], 0);
    assert_eq!(normalize(&t, &fs), Err(Error::DegenerateColumn));
}

#[test]
fn normalize_empty_dataset_rejected() {
    let t: Vec<Vec<i64>> = Vec::new();
    let fs = vec![scaled(1)];
    assert_eq!(normalize(&t, &fs), Err(Error::EmptyDataset));
}

#[test]
fn normalize_too_few_factors_rejected() {
    let t = vec![vec![scaled(1), scaled(2)]];
    let fs = vec![scaled(1)];
    assert_eq!(normalize(&t, &fs), Err(Error::ShapeMismatch));
}

#[test]
fn normalize_round_trip_within_tolerance() {
    // Normalizing and scaling back up by the same factors reconstructs each
    // value, short by less than one unit of the factor's scale and never
    // overshooting.
    let t = reference_dataset();
    let fs = compute_factors(&t).unwrap();
    let nt = normalize(&t, &fs).unwrap();
    for (k, row) in t.iter().enumerate() {
        for (j, v) in row.iter().enumerate() {
            let back = denormalize(nt[k][j], fs[j]).unwrap();
            assert!(back <= *v);
            assert!(*v - back <= fs[j] / SCALE + 1);
        }
    }
}

#[test]
fn row_loss_zero_weights_is_squared_label() {
    let w = vec![0, 0];
    let row = vec![scaled(2), scaled(3)];
    assert_eq!(row_loss(&w, &row), Ok(9 * SCALE));
}

#[test]
fn row_loss_matches_reference_formula() {
    // The same squared error computed independently: predicted is the bias
    // plus the weighted features, each product truncated at SCALE.
    let w = vec![250_000_000, -500_000_000, 750_000_000];
    let row = vec![1_300_000_000, -2_700_000_000, 900_000_000];
    let s = SCALE as i128;
    let mut predicted: i128 = (w[0] as i128 * s) / s;
    predicted += (w[1] as i128 * row[0] as i128) / s;
    predicted += (w[2] as i128 * row[1] as i128) / s;
    let residual = row[2] as i128 - predicted;
    let expected = (residual * residual) / s;
    assert_eq!(row_loss(&w, &row), Ok(expected as i64));
}

#[test]
fn row_loss_shape_mismatch_rejected() {
    let w = vec![0, 0, 0];
    let row = vec![scaled(1), scaled(2)];
    assert_eq!(row_loss(&w, &row), Err(Error::ShapeMismatch));
    assert_eq!(row_loss(&vec![0], &vec![scaled(1)]), Err(Error::ShapeMismatch));
}

#[test]
fn mean_loss_exact_for_zero_weights() {
    let t = reference_dataset();
    let w = vec![0, 0, 0, 0, 0];
    // Mean of the squared labels: (460^2 + 232^2 + 315^2 + 178^2) / 4.
    assert_eq!(mean_loss(&w, &t), Ok(99_083_250_000_000));
}

#[test]
fn mean_loss_never_negative() {
    let t = reference_dataset();
    let weights = vec![
        vec![0, 0, 0, 0, 0],
        vec![scaled(1), scaled(-2), scaled(3), scaled(-4), scaled(5)],
        vec![-SCALE / 2, SCALE / 4, -SCALE / 8, SCALE / 16, -SCALE / 32],
    ];
    for w in weights {
        assert!(mean_loss(&w, &t).unwrap() >= 0);
    }
}

#[test]
fn mean_loss_empty_dataset_rejected() {
    let t: Vec<Vec<i64>> = Vec::new();
    assert_eq!(mean_loss(&vec![0, 0], &t), Err(Error::EmptyDataset));
}

#[test]
fn denormalize_exact_product() {
    assert_eq!(denormalize(1_500_000_000, scaled(460)), Ok(scaled(690)));
}

#[test]
fn denormalize_out_of_range_rejected() {
    assert_eq!(denormalize(LIMIT, LIMIT), Err(Error::OutOfRange));
}

#[test]
fn prepend_bias_adds_unit_column() {
    let t = vec![vec![scaled(3), scaled(4)], vec![scaled(5), scaled(6)]];
    let b = prepend_bias(&t);
    assert_eq!(
        b,
        vec![
            vec![SCALE, scaled(3), scaled(4)],
            vec![SCALE, scaled(5), scaled(6)],
        ]
    );
}

#[test]
fn predict_exact_dot_product() {
    let w = vec![500_000_000, scaled(2)];
    let row = vec![SCALE, scaled(3)];
    assert_eq!(predict(&w, &row), Ok(6_500_000_000));
}

#[test]
fn predict_shape_mismatch_rejected() {
    let w = vec![SCALE];
    let row = vec![SCALE, SCALE];
    assert_eq!(predict(&w, &row), Err(Error::ShapeMismatch));
}
