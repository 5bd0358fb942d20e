//! Errors of the loader and of module lookup.

use vstd::prelude::*;
use crate::atom::Atom;

verus! {

/// Why a module could not be loaded.
#[derive(Debug, Clone, PartialEq, Eq)]
pub enum LoadError {
    /// The bytes are not a BEAM container.
    InvalidFormat,
    /// A chunk that every module needs is absent.
    MissingChunk(String),
    /// A chunk holds malformed data; the text says what.
    DecodeError(String),
}

/// A [`LoadError`] with its text as a sequence of characters.
#[verifier::ext_equal]
pub enum LoadFault {
    InvalidFormat,
    MissingChunk(Seq<char>),
    DecodeError(Seq<char>),
}

impl View for LoadError {
    type V = LoadFault;

    open spec fn view(&self) -> LoadFault {
        match self {
            LoadError::InvalidFormat => LoadFault::InvalidFormat,
            LoadError::MissingChunk(name) => LoadFault::MissingChunk(name@),
            LoadError::DecodeError(message) => LoadFault::DecodeError(message@),
        }
    }
}

/// What a fallible loader function answered, with its error as a [`LoadFault`].
pub open spec fn outcome<T>(r: Result<T, LoadError>) -> Result<T, LoadFault> {
    match r {
        Ok(value) => Ok(value),
        Err(error) => Err(error@),
    }
}

/// [`outcome`] of a function that answers a vector.
pub open spec fn outcome_seq<T>(r: Result<Vec<T>, LoadError>) -> Result<Seq<T>, LoadFault> {
    match r {
        Ok(value) => Ok(value@),
        Err(error) => Err(error@),
    }
}

/// The malformed-data fault with the given text.
pub open spec fn decode_fault(message: Seq<char>) -> LoadFault {
    LoadFault::DecodeError(message)
}

/// The malformed-data error with the given text.
pub fn decode_error(message: &str) -> (e: LoadError)
    ensures
        e@ == decode_fault(message@),
{
    LoadError::DecodeError(message.to_owned())
}

/// Why a code location could not be found.
#[derive(Debug, Clone, Copy, PartialEq, Eq, Structural)]
pub enum ExecError {
    /// The module has no such label.
    InvalidLabel { label: u32 },
    /// No loaded module exports the function.
    Undef { module: Atom, function: Atom, arity: u8 },
}

} // verus!
