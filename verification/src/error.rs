//! What can go wrong, and how it is reported.
use vstd::prelude::*;

verus! {

/// The elementwise operations on two matrices.
#[derive(Debug, Clone, Copy, PartialEq, Eq)]
pub enum Operator {
    ADD,
    SUB,
    MUL,
}

/// The kinds of failure.
#[derive(Debug, Clone, Copy, PartialEq, Eq)]
pub enum ErrorKind {
    /// An elementwise operation met operands of different shapes.
    ShapeMismatch,
    /// A matrix product met a left operand with a number of columns other
    /// than the right operand's number of rows.
    DimensionMismatch,
    /// A vector handed in from outside has not the length that the network
    /// declares.
    SizeMismatch,
    /// A value inside the pipeline is not what the pipeline itself should
    /// have made of a well-formed network: a defect, not bad data.
    InternalInvariantViolation,
}

/// A failure, with the stage at which it was found.
#[derive(Debug, Clone, Copy, PartialEq, Eq)]
pub enum Error {
    /// The operands of an elementwise operation differ in their number of
    /// rows.
    RowCountMismatch(Operator),
    /// The operands of an elementwise operation differ in the length of a
    /// row.
    ColumnCountMismatch(Operator),
    /// The left operand of a matrix product has not as many columns as the
    /// right operand has rows.
    DimensionMismatch,
    /// The input of a forward pass has not the length of the input layer.
    InputSizeMismatch,
    /// The input of a training entry has not the length of the input layer.
    TrainingInputSizeMismatch,
    /// The expected output of a training entry has not the length of the
    /// output layer.
    TrainingOutputSizeMismatch,
    /// A layer of the network has rows of different lengths.
    RaggedLayer,
    /// The forward pass produced no result for a hidden layer: the network
    /// has no layer.
    MissingHiddenResult,
    /// The first layer has not as many rows as the network has hidden
    /// neurons.
    HiddenSizeMismatch,
    /// The last layer has not as many rows as the network has output
    /// neurons.
    OutputSizeMismatch,
    /// The layers, the target and the activations handed to a backward pass
    /// do not belong together.
    Misaligned,
}

impl Error {
    /// The kind of the failure.
    pub open spec fn spec_kind(self) -> ErrorKind {
        match self {
            Error::RowCountMismatch(_) | Error::ColumnCountMismatch(_) => ErrorKind::ShapeMismatch,
            Error::DimensionMismatch => ErrorKind::DimensionMismatch,
            Error::InputSizeMismatch
            | Error::TrainingInputSizeMismatch
            | Error::TrainingOutputSizeMismatch => ErrorKind::SizeMismatch,
            Error::RaggedLayer
            | Error::MissingHiddenResult
            | Error::HiddenSizeMismatch
            | Error::OutputSizeMismatch
            | Error::Misaligned => ErrorKind::InternalInvariantViolation,
        }
    }

    /// The kind of the failure.
    #[verifier::when_used_as_spec(spec_kind)]
    pub fn kind(self) -> (r: ErrorKind)
        ensures
            r == self.spec_kind(),
    {
        match self {
            Error::RowCountMismatch(_) | Error::ColumnCountMismatch(_) => ErrorKind::ShapeMismatch,
            Error::DimensionMismatch => ErrorKind::DimensionMismatch,
            Error::InputSizeMismatch
            | Error::TrainingInputSizeMismatch
            | Error::TrainingOutputSizeMismatch => ErrorKind::SizeMismatch,
            Error::RaggedLayer
            | Error::MissingHiddenResult
            | Error::HiddenSizeMismatch
            | Error::OutputSizeMismatch
            | Error::Misaligned => ErrorKind::InternalInvariantViolation,
        }
    }

    /// The text of the failure.
    pub open spec fn text(self) -> Seq<char> {
        match self {
            Error::RowCountMismatch(Operator::ADD) =>
                "Matrix ADD: the row size of both matrices should be the same"@,
            Error::RowCountMismatch(Operator::SUB) =>
                "Matrix SUB: the row size of both matrices should be the same"@,
            Error::RowCountMismatch(Operator::MUL) =>
                "Matrix MUL: the row size of both matrices should be the same"@,
            Error::ColumnCountMismatch(Operator::ADD) =>
                "Matrix ADD: the column size of both matrices should be the same"@,
            Error::ColumnCountMismatch(Operator::SUB) =>
                "Matrix SUB: the column size of both matrices should be the same"@,
            Error::ColumnCountMismatch(Operator::MUL) =>
                "Matrix MUL: the column size of both matrices should be the same"@,
            Error::DimensionMismatch =>
                "Matrix: the number of columns in the first matrix must be equal to the number of rows in the second matrix"@,
            Error::InputSizeMismatch =>
                "Feedforward: The input data should have the same size as the amount of input neurons"@,
            Error::TrainingInputSizeMismatch =>
                "Neuralnetwork: TrainingEntry input should be of same size as amount_of_input_neurons"@,
            Error::TrainingOutputSizeMismatch =>
                "Neuralnetwork: TrainingEntry expected_output should be of same size as amount_of_output_neurons"@,
            Error::RaggedLayer =>
                "Feedforward: The rows of a layer should all be of the same size"@,
            Error::MissingHiddenResult => "Feedforward: No data in hidden layer"@,
            Error::HiddenSizeMismatch =>
                "Feedforward: Result of hidden layer should be of same size as amount of hidden neurons"@,
            Error::OutputSizeMismatch =>
                "Feedforward: Result of output layer should be of same size as amount of output neurons"@,
            Error::Misaligned =>
                "Backpropagation: The layers, the target and the feedforward result should fit each other"@,
        }
    }

    /// The text of the failure, as a string.
    pub fn message(self) -> (r: String)
        ensures
            r@ == self.text(),
    {
        match self {
            Error::RowCountMismatch(Operator::ADD) =>
                "Matrix ADD: the row size of both matrices should be the same".to_owned(),
            Error::RowCountMismatch(Operator::SUB) =>
                "Matrix SUB: the row size of both matrices should be the same".to_owned(),
            Error::RowCountMismatch(Operator::MUL) =>
                "Matrix MUL: the row size of both matrices should be the same".to_owned(),
            Error::ColumnCountMismatch(Operator::ADD) =>
                "Matrix ADD: the column size of both matrices should be the same".to_owned(),
            Error::ColumnCountMismatch(Operator::SUB) =>
                "Matrix SUB: the column size of both matrices should be the same".to_owned(),
            Error::ColumnCountMismatch(Operator::MUL) =>
                "Matrix MUL: the column size of both matrices should be the same".to_owned(),
            Error::DimensionMismatch =>
                "Matrix: the number of columns in the first matrix must be equal to the number of rows in the second matrix".to_owned(),
            Error::InputSizeMismatch =>
                "Feedforward: The input data should have the same size as the amount of input neurons".to_owned(),
            Error::TrainingInputSizeMismatch =>
                "Neuralnetwork: TrainingEntry input should be of same size as amount_of_input_neurons".to_owned(),
            Error::TrainingOutputSizeMismatch =>
                "Neuralnetwork: TrainingEntry expected_output should be of same size as amount_of_output_neurons".to_owned(),
            Error::RaggedLayer =>
                "Feedforward: The rows of a layer should all be of the same size".to_owned(),
            Error::MissingHiddenResult => "Feedforward: No data in hidden layer".to_owned(),
            Error::HiddenSizeMismatch =>
                "Feedforward: Result of hidden layer should be of same size as amount of hidden neurons".to_owned(),
            Error::OutputSizeMismatch =>
                "Feedforward: Result of output layer should be of same size as amount of output neurons".to_owned(),
            Error::Misaligned =>
                "Backpropagation: The layers, the target and the feedforward result should fit each other".to_owned(),
        }
    }
}

} // verus!
