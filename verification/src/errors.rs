//! The errors of lowering and of code generation.

use crate::symbol::Symbol;
use vstd::prelude::*;

verus! {

/// Why a program cannot be lowered, or its code not generated.
#[derive(Debug, Clone, Copy, PartialEq, Eq, Structural)]
pub enum Error {
    /// An address is computed from, or a value read through, what is no
    /// pointer.
    DerefNonPointer,
    /// An identifier is bound to nothing.
    UnboundIdentifier(Symbol),
    /// A struct is not declared.
    StructNotFound(Symbol),
    /// A struct has no field of the name.
    FieldNotFound(Symbol, Symbol),
    /// What is called is no function.
    NotAFunction,
    /// What is assigned to is no variable, field or element.
    NotAssignable,
    /// More names are needed than there are numbers for them.
    OutOfNames,
    /// A type has no size, or one too large for the machine.
    Unsized,
    /// A local identifier is used that has no place in the frame.
    Unplaced(Symbol),
}

pub type Result<T> = core::result::Result<T, Error>;

} // verus!
