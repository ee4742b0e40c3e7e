//! How the process ends: gracefully, or with one of the fatal errors, and the
//! exit code of each ending.

use vstd::prelude::*;
use crate::address::ResolveError;
use crate::handlers::RegistrationError;

verus! {

/// Why the listener could not be opened, as the operating system reports it.
#[derive(Clone, Copy, Debug, PartialEq, Eq, Structural)]
pub enum BindFailure {
    /// The address is already bound.
    AddressInUse,
    /// The process lacks the privilege to bind the address.
    PermissionDenied,
    /// Any other failure of the operating system.
    TransportError,
}

/// An error that ends the process.
#[derive(Clone, Copy, Debug, PartialEq, Eq, Structural)]
pub enum FatalError {
    InvalidAddress,
    UnsupportedFamily,
    AddressInUse,
    PermissionDenied,
    TransportError,
    DuplicateMethod,
    RegistrationClosed,
}

/// How the process ends.
#[derive(Clone, Copy, Debug, PartialEq, Eq, Structural)]
pub enum Outcome {
    /// The server was shut down on request.
    Graceful,
    /// A fatal error ended it.
    Fatal(FatalError),
}

pub open spec fn fatal_of_resolve(e: ResolveError) -> FatalError {
    match e {
        ResolveError::InvalidAddress => FatalError::InvalidAddress,
        ResolveError::UnsupportedFamily => FatalError::UnsupportedFamily,
    }
}

pub open spec fn fatal_of_bind(e: BindFailure) -> FatalError {
    match e {
        BindFailure::AddressInUse => FatalError::AddressInUse,
        BindFailure::PermissionDenied => FatalError::PermissionDenied,
        BindFailure::TransportError => FatalError::TransportError,
    }
}

pub open spec fn fatal_of_registration(e: RegistrationError) -> FatalError {
    match e {
        RegistrationError::DuplicateMethod => FatalError::DuplicateMethod,
        RegistrationError::RegistrationClosed => FatalError::RegistrationClosed,
    }
}

/// The exit code of each ending: zero for a graceful one, and a code of its own
/// for each fatal error.
pub open spec fn exit_code_of(outcome: Outcome) -> u8 {
    match outcome {
        Outcome::Graceful => 0,
        Outcome::Fatal(FatalError::InvalidAddress) => 2,
        Outcome::Fatal(FatalError::UnsupportedFamily) => 3,
        Outcome::Fatal(FatalError::AddressInUse) => 4,
        Outcome::Fatal(FatalError::PermissionDenied) => 5,
        Outcome::Fatal(FatalError::TransportError) => 6,
        Outcome::Fatal(FatalError::DuplicateMethod) => 7,
        Outcome::Fatal(FatalError::RegistrationClosed) => 8,
    }
}

impl FatalError {
    /// The fatal error that a failure to resolve the listen address is.
    pub fn from_resolve_error(e: ResolveError) -> (r: Self)
        ensures
            r == fatal_of_resolve(e),
    {
        match e {
            ResolveError::InvalidAddress => FatalError::InvalidAddress,
            ResolveError::UnsupportedFamily => FatalError::UnsupportedFamily,
        }
    }

    /// The fatal error that a failure to open the listener is.
    pub fn from_bind_failure(e: BindFailure) -> (r: Self)
        ensures
            r == fatal_of_bind(e),
    {
        match e {
            BindFailure::AddressInUse => FatalError::AddressInUse,
            BindFailure::PermissionDenied => FatalError::PermissionDenied,
            BindFailure::TransportError => FatalError::TransportError,
        }
    }

    /// The fatal error that a refused registration is.
    pub fn from_registration_error(e: RegistrationError) -> (r: Self)
        ensures
            r == fatal_of_registration(e),
    {
        match e {
            RegistrationError::DuplicateMethod => FatalError::DuplicateMethod,
            RegistrationError::RegistrationClosed => FatalError::RegistrationClosed,
        }
    }
}

/// The exit code of the process for the given ending.
pub fn exit_code(outcome: Outcome) -> (r: u8)
    ensures
        r == exit_code_of(outcome),
        (r == 0) == (outcome == Outcome::Graceful),
{
    match outcome {
        Outcome::Graceful => 0,
        Outcome::Fatal(e) => match e {
            FatalError::InvalidAddress => 2,
            FatalError::UnsupportedFamily => 3,
            FatalError::AddressInUse => 4,
            FatalError::PermissionDenied => 5,
            FatalError::TransportError => 6,
            FatalError::DuplicateMethod => 7,
            FatalError::RegistrationClosed => 8,
        },
    }
}

/// Two endings with the same exit code are the same ending, and only the
/// graceful one exits with zero.
pub proof fn lemma_exit_codes_tell_endings_apart(a: Outcome, b: Outcome)
    ensures
        exit_code_of(a) == exit_code_of(b) ==> a == b,
        exit_code_of(a) == 0 <==> a == Outcome::Graceful,
{
}

} // verus!
