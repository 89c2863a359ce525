//! A fully connected, sigmoid-activated feedforward network, trained by
//! backpropagation, over dense matrices.
//!
//! The network is generic over its numbers (`scalar`). `matrix` and
//! `operators` hold the algebra, `feedforward` and `backpropagation` the two
//! passes, `neuralnetwork` and `training` what a caller asks of a network:
//! answers, an error rate, and training. `imaging` and `mnist` bring
//! pictures of handwritten digits to a network and back.
//!
//! Every function states what it returns over the model of its arguments:
//! a matrix is its grid of entries, a network the grids of its layers. What
//! a number is worth is left to the scalar: the contracts say which of its
//! operations made each entry of a result, of which operands, and in which
//! order.
pub mod backpropagation;
pub mod error;
pub mod errorrate;
pub mod feedforward;
pub mod frontend_validation;
pub mod imaging;
pub mod layer;
pub mod matrix;
pub mod mnist;
pub mod neuralnetwork;
pub mod operators;
pub mod query;
pub mod random;
pub mod scalar;
pub mod training;
