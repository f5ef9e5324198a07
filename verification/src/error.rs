//! The errors of the front end.

use crate::ast::{Id, RetTy, ReturnType, Ty, Type};
use vstd::prelude::*;

verus! {

/// Why a source text is not a program.
#[derive(Debug, PartialEq, Eq)]
pub enum ParseError {
    /// Declarations were read from the start of the text, and this tail of
    /// the text is not a declaration.
    RemainingInput(String),
    /// The text breaks off or holds a character that starts no token. The
    /// position counts characters from the start of the text.
    ParserError(usize),
}

/// The model of a `ParseError`.
pub enum SyntaxError {
    RemainingInput(Seq<char>),
    ParserError(nat),
}

impl View for ParseError {
    type V = SyntaxError;

    open spec fn view(&self) -> SyntaxError {
        match self {
            ParseError::RemainingInput(tail) => SyntaxError::RemainingInput(tail@),
            ParseError::ParserError(position) => SyntaxError::ParserError(*position as nat),
        }
    }
}

/// Why a program is not well typed.
#[derive(Debug, PartialEq, Eq)]
pub enum TypeError {
    StructNotFound(Id),
    CannotSubscript(Type),
    NonIntegerIndex(Type),
    CannotGetLength(Type),
    FieldNotFound(Type, Id),
    DuplicateField(Id),
    MissingField(Type, Id),
    IncompatibleType,
    UndefinedVariable(Id),
    ArrayLength(Type),
    IncompatibleArrayElement { array: Type, elt: Type },
    CanOnlyCallFunctions,
    VoidExpression,
    CannotAssignFunction,
    ReturnValueMissing,
    ReturnValueProvidedInVoidFunction,
    IncompatibleFunctionArgCounts { expected: usize, given: usize },
    DeadCodeAfterReturn,
    DidNotReturn { expected_ret_type: ReturnType },
}

/// The model of a `TypeError`.
pub enum TyError {
    StructNotFound(Id),
    CannotSubscript(Ty),
    NonIntegerIndex(Ty),
    CannotGetLength(Ty),
    FieldNotFound(Ty, Id),
    DuplicateField(Id),
    MissingField(Ty, Id),
    IncompatibleType,
    UndefinedVariable(Id),
    ArrayLength(Ty),
    IncompatibleArrayElement { array: Ty, elt: Ty },
    CanOnlyCallFunctions,
    VoidExpression,
    CannotAssignFunction,
    ReturnValueMissing,
    ReturnValueProvidedInVoidFunction,
    IncompatibleFunctionArgCounts { expected: nat, given: nat },
    DeadCodeAfterReturn,
    DidNotReturn { expected_ret_type: RetTy },
}

impl View for TypeError {
    type V = TyError;

    open spec fn view(&self) -> TyError {
        match self {
            TypeError::StructNotFound(id) => TyError::StructNotFound(*id),
            TypeError::CannotSubscript(t) => TyError::CannotSubscript(t@),
            TypeError::NonIntegerIndex(t) => TyError::NonIntegerIndex(t@),
            TypeError::CannotGetLength(t) => TyError::CannotGetLength(t@),
            TypeError::FieldNotFound(t, id) => TyError::FieldNotFound(t@, *id),
            TypeError::DuplicateField(id) => TyError::DuplicateField(*id),
            TypeError::MissingField(t, id) => TyError::MissingField(t@, *id),
            TypeError::IncompatibleType => TyError::IncompatibleType,
            TypeError::UndefinedVariable(id) => TyError::UndefinedVariable(*id),
            TypeError::ArrayLength(t) => TyError::ArrayLength(t@),
            TypeError::IncompatibleArrayElement { array, elt } => TyError::IncompatibleArrayElement {
                array: array@,
                elt: elt@,
            },
            TypeError::CanOnlyCallFunctions => TyError::CanOnlyCallFunctions,
            TypeError::VoidExpression => TyError::VoidExpression,
            TypeError::CannotAssignFunction => TyError::CannotAssignFunction,
            TypeError::ReturnValueMissing => TyError::ReturnValueMissing,
            TypeError::ReturnValueProvidedInVoidFunction => TyError::ReturnValueProvidedInVoidFunction,
            TypeError::IncompatibleFunctionArgCounts { expected, given } => {
                TyError::IncompatibleFunctionArgCounts {
                    expected: *expected as nat,
                    given: *given as nat,
                }
            },
            TypeError::DeadCodeAfterReturn => TyError::DeadCodeAfterReturn,
            TypeError::DidNotReturn { expected_ret_type } => TyError::DidNotReturn {
                expected_ret_type: expected_ret_type@,
            },
        }
    }
}

/// Either stage's error.
#[derive(Debug, PartialEq, Eq)]
pub enum Error {
    TypeError(TypeError),
    ParserError(ParseError),
}

/// The result of a check that yields a truth value, as a model.
pub open spec fn flag_view(r: Result<bool, TypeError>) -> Result<bool, TyError> {
    match r {
        Ok(b) => Ok(b),
        Err(e) => Err(e@),
    }
}

/// The result of a check that yields nothing, as a model.
pub open spec fn unit_view(r: Result<(), TypeError>) -> Result<(), TyError> {
    match r {
        Ok(_) => Ok(()),
        Err(e) => Err(e@),
    }
}

/// The result of a check that yields a type, as a model.
pub open spec fn typed_view(r: Result<Type, TypeError>) -> Result<Ty, TyError> {
    match r {
        Ok(t) => Ok(t@),
        Err(e) => Err(e@),
    }
}

} // verus!
