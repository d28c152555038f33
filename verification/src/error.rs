//! What can go wrong: while a type's size is resolved, and while a
//! definition is processed.

use crate::size::{CdrEncodingMaxSize, MaxSize};
use vstd::prelude::*;

verus! {

/// The mathematical form of a [`SizeError`].
pub enum SizeFault {
    UnsupportedShape { name: Seq<char> },
    MissingCapability { name: Seq<char> },
    Overflow { name: Seq<char> },
}

/// Why the size of a type reference cannot be resolved. Each variant names
/// the type at fault.
#[derive(Clone, Debug, PartialEq, Eq)]
pub enum SizeError {
    /// The type is a tagged union.
    UnsupportedShape { name: String },
    /// No capability is registered for the type with that many arguments.
    MissingCapability { name: String },
    /// The members of the type together take more bytes than can be counted.
    Overflow { name: String },
}

impl View for SizeError {
    type V = SizeFault;

    open spec fn view(&self) -> SizeFault {
        match self {
            SizeError::UnsupportedShape { name } => SizeFault::UnsupportedShape { name: name@ },
            SizeError::MissingCapability { name } => SizeFault::MissingCapability { name: name@ },
            SizeError::Overflow { name } => SizeFault::Overflow { name: name@ },
        }
    }
}

/// The shape of a definition is a tagged union: no sum can be built for it.
#[derive(Clone, Copy, Debug, PartialEq, Eq)]
pub struct UnsupportedShape;

/// The mathematical form of a [`DeriveError`].
pub enum DeriveFault {
    UnsupportedShape { name: Seq<char> },
    Conflict { name: Seq<char> },
    Field { name: Seq<char>, index: nat, cause: SizeFault },
    Overflow { name: Seq<char> },
}

/// Why a definition is refused. Each variant names the definition.
#[derive(Clone, Debug, PartialEq, Eq)]
pub enum DeriveError {
    /// The definition is a tagged union.
    UnsupportedShape { name: String },
    /// A capability is registered under the definition's name already.
    Conflict { name: String },
    /// The size of the member at `index` cannot be resolved.
    Field { name: String, index: usize, cause: SizeError },
    /// The members together take more bytes than can be counted.
    Overflow { name: String },
}

impl View for DeriveError {
    type V = DeriveFault;

    open spec fn view(&self) -> DeriveFault {
        match self {
            DeriveError::UnsupportedShape { name } => DeriveFault::UnsupportedShape {
                name: name@,
            },
            DeriveError::Conflict { name } => DeriveFault::Conflict { name: name@ },
            DeriveError::Field { name, index, cause } => DeriveFault::Field {
                name: name@,
                index: *index as nat,
                cause: cause@,
            },
            DeriveError::Overflow { name } => DeriveFault::Overflow { name: name@ },
        }
    }
}

/// The mathematical form of the outcome of resolving a size.
pub open spec fn size_outcome(r: Result<CdrEncodingMaxSize, SizeError>) -> Result<
    MaxSize,
    SizeFault,
> {
    match r {
        Ok(size) => Ok(size@),
        Err(error) => Err(error@),
    }
}

/// The mathematical form of the outcome of processing a definition.
pub open spec fn derive_outcome(r: Result<CdrEncodingMaxSize, DeriveError>) -> Result<
    MaxSize,
    DeriveFault,
> {
    match r {
        Ok(size) => Ok(size@),
        Err(error) => Err(error@),
    }
}

} // verus!
