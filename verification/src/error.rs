//! The fatal error taxonomy of the engine.
//!
//! Every operation of the core surfaces an error value rather than
//! aborting; the caller that owns the run loop decides to stop. There is
//! no command-level recovery: all of these are terminal for the run.

use vstd::prelude::*;

verus! {

#[derive(Clone, Copy, PartialEq, Eq, Structural, Debug)]
pub enum Error {
    /// An expression's text is empty.
    EmptyExpression,
    /// An identifier was not found in the variable table (or carries no
    /// value yet) during symbol expansion or lookup.
    UnknownSymbol,
    /// A call-style argument list is missing its closing parenthesis.
    UnterminatedArgumentList,
    /// The leading characters of an expanded expression match neither a
    /// numeric nor a string/character literal form.
    InvalidExpressionType,
    /// A numeric or disallowed operator character, or a literal without a
    /// connecting `+`, was found while parsing a string expression.
    TypeMismatchInStringExpression,
    /// A quote or apostrophe was found inside a numeric expression.
    StringInNumericExpression,
    /// The arithmetic evaluator rejected a numeric expression.
    InvalidNumericExpression,
    /// An assigned expression's type disagrees with the target variable's
    /// declared type.
    TypeMismatchOnAssignment,
    /// A declared-with-value expression's type disagrees with the declared
    /// type.
    TypeMismatchOnDeclaration,
    /// The two operands of a comparison have incompatible types.
    TypeMismatchOnComparison,
    /// An operation names a variable that was never declared.
    UndeclaredVariable,
    /// A declaration reuses a name that is already declared.
    DuplicateDeclaration,
    /// More than one loaded source unit declares the entry section.
    DuplicateEntrySection,
    /// A run was requested but the entry section was never loaded.
    MissingEntrySection,
    /// A jump names a section that was never loaded.
    UnknownSection,
    /// A conditional jump ran before any comparison had executed.
    MissingComparison,
}

} // verus!
