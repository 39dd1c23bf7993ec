use vstd::prelude::*;

verus! {

/// Why an evaluation failed.
///
/// Every failure of the evaluator is one of these classifications; errors are
/// always returned as values, never raised.
#[derive(Debug, PartialEq, Eq)]
pub enum EvalError {
    /// An operator, or the extraction of the final result, needed an operand
    /// that was not on the stack.
    StackUnderflow,
    /// A token was neither a recognized operator nor a parseable integer
    /// literal; carries the offending token.
    InvalidToken(String),
    /// A division operator met a zero divisor.
    DivisionByZero,
}

/// The mathematical shape of an [`EvalError`]: the same classification, with
/// the offending token of `InvalidToken` as a sequence of characters.
pub enum ErrorModel {
    StackUnderflow,
    InvalidToken(Seq<char>),
    DivisionByZero,
}

impl View for EvalError {
    type V = ErrorModel;

    open spec fn view(&self) -> ErrorModel {
        match self {
            EvalError::StackUnderflow => ErrorModel::StackUnderflow,
            EvalError::InvalidToken(t) => ErrorModel::InvalidToken(t@),
            EvalError::DivisionByZero => ErrorModel::DivisionByZero,
        }
    }
}

} // verus!
