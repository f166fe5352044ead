use linreg::errors::Error;
use linreg::fixed::{LIMIT, SCALE};
use linreg::gradient::step;
use linreg::normalizer::{compute_factors, denormalize, normalize};
use linreg::predictor::{predict, prepend_bias};
use linreg::training::train;

fn scaled(v: i64) -> i64 {
    v * SCALE
}

fn reference_dataset() -> Vec<Vec<i64>> {
    vec![
        vec![scaled(2104), scaled(5), scaled(1), scaled(45), scaled(460)],
        vec![scaled(1416), scaled(3), scaled(2), scaled(40), scaled(232)],
        vec![scaled(1534), scaled(3), scaled(2), scaled(30), scaled(315)],
        vec![scaled(852), scaled(2), scaled(1), scaled(36), scaled(178)],
    ]
}

fn normalized_reference() -> Vec<Vec<i64>> {
    let t = reference_dataset();
    let fs = compute_factors(&t).unwrap();
    normalize(&t, &fs).unwrap()
}

#[test]
fn step_zero_learning_rate_is_identity() {
    let nt = normalized_reference();
    let w = vec![
        scaled(1),
        -scaled(2),
        300_000_000,
        -400_000_000,
        SCALE / 2,
    ];
    assert_eq!(step(&w, &nt, 0), Ok(w));
}

#[test]
fn step_shape_mismatch_rejected() {
    let nt = normalized_reference();
    let w = vec![0, 0, 0];
    assert_eq!(step(&w, &nt, SCALE / 100), Err(Error::ShapeMismatch));
}

#[test]
fn step_empty_dataset_rejected() {
    let t: Vec<Vec<i64>> = Vec::new();
    assert_eq!(step(&vec![0, 0], &t, SCALE / 100), Err(Error::EmptyDataset));
}

#[test]
fn step_out_of_range_rejected() {
    // A weight and a feature at the very edge of the range: their product
    // leaves it, and the step reports that instead of wrapping.
    let t = vec![vec![LIMIT, LIMIT]];
    let w = vec![LIMIT, LIMIT];
    assert_eq!(step(&w, &t, SCALE / 100), Err(Error::OutOfRange));
}

#[test]
fn train_zero_iterations_returns_start() {
    let nt = normalized_reference();
    let w0 = vec![0, 0, 0, 0, 0];
    let (w, trace) = train(w0.clone(), &nt, SCALE / 100, 0).unwrap();
    assert_eq!(w, w0);
    assert!(trace.is_empty());
}

#[test]
fn training_on_reference_dataset_improves_loss() {
    // 10001 update steps at learning rate 0.01 from all-zero weights: the
    // mean loss at the last step is far below the mean loss at the first.
    let nt = normalized_reference();
    let w0 = vec![0, 0, 0, 0, 0];
    let (w, trace) = train(w0, &nt, SCALE / 100, 10001).unwrap();
    assert_eq!(trace.len(), 10001);
    assert_eq!(trace[0], 440_516_112);
    assert_eq!(trace[10000], 1_686_530);
    assert!(trace[10000] < trace[0]);
    assert_eq!(
        w,
        vec![104_024_595, 585_852_477, 514_453_385, -107_408_726, -150_618_176]
    );
}

#[test]
fn prediction_on_query_row_is_plausible() {
    // Full pipeline: train, normalize the query row with the training
    // factors, bias-augment it, predict, and scale the prediction back up by
    // the label column's factor. The result must be positive and on the
    // scale of the training labels.
    let t = reference_dataset();
    let fs = compute_factors(&t).unwrap();
    let nt = normalize(&t, &fs).unwrap();
    let w0 = vec![0, 0, 0, 0, 0];
    let (w, _trace) = train(w0, &nt, SCALE / 100, 10001).unwrap();

    let query = vec![vec![scaled(3000), scaled(2), scaled(1), scaled(20)]];
    let nq = normalize(&query, &fs).unwrap();
    let bq = prepend_bias(&nq);
    let raw = predict(&w, &bq[0]).unwrap();
    let label_factor = fs[fs.len() - 1];
    let value = denormalize(raw, label_factor).unwrap();
    assert_eq!(value, 471_270_533_140);
    assert!(value > scaled(100) && value < scaled(1000));
}
