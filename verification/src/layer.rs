//! A layer of weights.
use vstd::prelude::*;
use crate::matrix::Matrix;

verus! {

/// The weights between two layers of neurons: a row for each neuron of the
/// layer they lead to, a column for each neuron of the layer they come
/// from.
#[derive(Debug, PartialEq, Clone)]
pub struct Layer<T>(pub Matrix<T>);

impl<T> View for Layer<T> {
    type V = Seq<Seq<T>>;

    /// The grid of the layer's weights.
    open spec fn view(&self) -> Seq<Seq<T>> {
        self.0@
    }
}

impl<T> Layer<T> {
    /// A layer of the given weights.
    pub fn new(data: Matrix<T>) -> (r: Layer<T>)
        ensures
            r.0 == data,
    {
        Layer(data)
    }

    /// The weights of the layer.
    pub fn get_matrix_as_ref(&self) -> (r: &Matrix<T>)
        ensures
            *r == self.0,
    {
        &self.0
    }

    /// The weights of the layer, taken out of it.
    pub fn get_matrix(self) -> (r: Matrix<T>)
        ensures
            r == self.0,
    {
        self.0
    }
}

/// The grids of a sequence of layers, in their order.
pub open spec fn weights_of<T>(layers: Seq<Layer<T>>) -> Seq<Seq<Seq<T>>> {
    Seq::new(layers.len(), |k: int| layers[k]@)
}

/// The grids of a sequence of matrices, in their order.
pub open spec fn grids_of<T>(matrices: Seq<Matrix<T>>) -> Seq<Seq<Seq<T>>> {
    Seq::new(matrices.len(), |k: int| matrices[k]@)
}

} // verus!
