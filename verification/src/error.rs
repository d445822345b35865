//! The error kinds of the engine.

use vstd::prelude::*;

verus! {

/// Why the evaluation of an expression over a batch failed.
#[derive(Clone, Copy, Debug, PartialEq, Eq, Structural)]
pub enum EvalError {
    /// An integer division whose divisor is zero.
    DivideByZero,
    /// An integer result that does not fit in 64 bits.
    Overflow,
    /// An operand whose type the operator does not accept.
    TypeMismatch,
    /// A column index that the dataset does not have.
    NoSuchColumn,
}

/// Every failure that the engine reports.
#[derive(Clone, Copy, Debug, PartialEq, Eq, Structural)]
pub enum Error {
    /// Two fields of one schema share a name, or columns do not fit their schema.
    InvalidSchema,
    /// A runtime expression error; it ends the stream.
    Eval(EvalError),
    /// A corrupt or incompatible checkpoint blob; nothing is restored.
    State,
    /// A field of a CSV record that is no value of its column's type.
    CsvValue { column: usize, row: usize },
}

} // verus!
