//! A convolutional neural network training engine: convolution by unrolling windows and
//! multiplying once, max pooling that sends gradients back to where it found its maxima,
//! dense layers and activations, and the forward and backward passes that make a list of
//! such layers a network that can be trained.
//!
//! The layers work on matrices of any number type that implements [`scalar::Scalar`];
//! what each function gives is stated over the operations of the number type, in the
//! order in which it applies them, and proved. Programs bring floating point numbers;
//! integers come with the library.
//!
//! A batch is a list of samples, and a sample is a list of matrices, one for each
//! channel. A dense layer gives one matrix for the whole batch, with a column for each
//! sample, and the normalised exponential turns it into one with a row for each sample.
//! A layer or a network that is given a batch of a shape that it cannot work on says so
//! with an error; the functions on single matrices state what they need.

pub mod activation;
pub mod algebra;
pub mod alike;
pub mod batch;
pub mod convolution;
pub mod dataset;
pub mod error;
pub mod full_connected;
pub mod loss;
pub mod matrix;
pub mod network;
pub mod pooling;
pub mod propagation;
pub mod reshape;
pub mod rotate;
pub mod scalar;
pub mod shape;
pub mod trained;
pub mod window;
