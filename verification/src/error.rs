use vstd::prelude::*;

use crate::function::SingleRowFunc;

verus! {

/// Why a statement cannot be planned.
#[derive(Clone, Debug, PartialEq, Eq)]
pub enum Error {
    /// A table named in `FROM` is not in the schema.
    NoSuchTable(String),
    /// An aggregate function is used where only row values are computed.
    AggregateInNonAggregateContext,
    /// A function that needs arguments is called without an argument list.
    NoArguments(SingleRowFunc),
    /// A function is called with a number of arguments it does not take.
    WrongArgumentCount(SingleRowFunc),
    /// A function name that names no function.
    UnknownFunction(String),
    /// A negated numeric literal that is neither an integer nor a real.
    InvalidNumber(String),
    /// No table with this name or alias has a column with this name.
    QualifiedColumnNotFound(String, String),
    /// No table has a column with this name.
    ColumnNotFound(String),
    /// More than one table has a column with this name.
    AmbiguousColumn(String),
}

} // verus!
