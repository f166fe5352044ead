//! Fixed-point training of a multivariate linear regression model by batch
//! gradient descent.
//!
//! Every quantity in the pipeline is a fixed-point number: an `i64` holding
//! `value * SCALE`, with `SCALE = 10^9`. The dataset is a rectangular table
//! whose last column is the label; the remaining columns are features. The
//! library computes per-column normalization factors, rescales a dataset into
//! unit range, evaluates squared-error loss, performs gradient-descent weight
//! updates, runs a fixed-iteration training loop, and predicts a label for a
//! bias-augmented query row.
//!
//! All arithmetic is range-checked: a result whose magnitude would exceed
//! `LIMIT` is reported as `Error::OutOfRange` instead of wrapping or
//! saturating, so every function here is total and none panics.

pub mod errors;
pub mod fixed;
pub mod model;
pub mod loss;
pub mod gradient;
pub mod normalizer;
pub mod predictor;
pub mod training;
