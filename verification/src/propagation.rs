//! What layers without parameters have in common: a way forward and a way back.

use crate::activation::Activation;
use crate::error::NetError;
use crate::matrix::Matrix;
use crate::pooling::Pool;
use crate::scalar::Transcendental;
use vstd::prelude::*;

verus! {

/// A layer that gives a batch for a batch, and hands a gradient back for the batch that
/// it was given, without changing itself.
pub trait Propagation<T: Transcendental> {
    /// What the layer gives for the batch.
    fn forward(&self, inputs: &Vec<Vec<Matrix<T>>>) -> Result<Vec<Vec<Matrix<T>>>, NetError>;

    /// The gradient with respect to `inputs`, the batch that the layer was given, for the
    /// gradient with respect to what it gave.
    fn backward(&self, inputs: &Vec<Vec<Matrix<T>>>, deltas: &Vec<Vec<Matrix<T>>>) -> Result<
        Vec<Vec<Matrix<T>>>,
        NetError,
    >;
}

impl<T: Transcendental> Propagation<T> for Pool {
    fn forward(&self, inputs: &Vec<Vec<Matrix<T>>>) -> (out: Result<Vec<Vec<Matrix<T>>>, NetError>)
        ensures
            out is Ok <==> self@.accepts(inputs.deep_view()),
            out matches Ok(outputs) ==> outputs.deep_view() == self@.forward_spec(inputs.deep_view()),
            out matches Err(e) ==> e == NetError::ShapeMismatch,
    {
        Pool::forward(self, inputs)
    }

    fn backward(&self, inputs: &Vec<Vec<Matrix<T>>>, deltas: &Vec<Vec<Matrix<T>>>) -> (out: Result<
        Vec<Vec<Matrix<T>>>,
        NetError,
    >)
        ensures
            out is Ok <==> self@.accepts_backward(inputs.deep_view(), deltas.deep_view()),
            out matches Ok(given) ==> given.deep_view() == self@.backward_spec(inputs.deep_view(), deltas.deep_view()),
            out matches Err(e) ==> e == NetError::ShapeMismatch,
    {
        Pool::backward(self, inputs, deltas)
    }
}

impl<T: Transcendental> Propagation<T> for Activation {
    fn forward(&self, inputs: &Vec<Vec<Matrix<T>>>) -> (out: Result<Vec<Vec<Matrix<T>>>, NetError>)
        ensures
            out is Ok <==> self.accepts(inputs.deep_view()),
            out matches Ok(outputs) ==> self.produces(inputs.deep_view(), outputs.deep_view()),
            out matches Err(e) ==> e == NetError::ShapeMismatch,
    {
        Activation::forward(self, inputs)
    }

    fn backward(&self, inputs: &Vec<Vec<Matrix<T>>>, deltas: &Vec<Vec<Matrix<T>>>) -> (out: Result<
        Vec<Vec<Matrix<T>>>,
        NetError,
    >)
        ensures
            out is Ok <==> self.accepts_backward(inputs.deep_view(), deltas.deep_view()),
            out matches Ok(given) ==> given.deep_view() == self.backward_spec(inputs.deep_view(), deltas.deep_view()),
            out matches Err(e) ==> e == NetError::ShapeMismatch,
    {
        Activation::backward(self, inputs, deltas)
    }
}

} // verus!
