//! What to do about a failed venue operation, the same for every kind of failure.

use vstd::prelude::*;

use crate::venue::rest::RestError;
use crate::venue::userdata::UserDataError;
use crate::venue::ws::WsError;

verus! {

/// Whether a failure passes.
#[derive(Debug, Clone, Copy, PartialEq, Eq, Structural)]
pub enum ErrorClass {
    /// It passes: trying again can succeed.
    Transient,
    /// It does not.
    Fatal,
}

/// What to do about a failure.
#[derive(Debug, Clone, Copy, PartialEq, Eq, Structural)]
pub enum Disposition {
    /// Try again.
    Retry,
    /// Stop.
    Halt,
}

impl ErrorClass {
    /// What a failure of this class calls for.
    pub open spec fn calls_for(self) -> Disposition {
        match self {
            ErrorClass::Transient => Disposition::Retry,
            ErrorClass::Fatal => Disposition::Halt,
        }
    }

    /// What a failure of this class calls for.
    pub fn disposition(self) -> (r: Disposition)
        ensures
            r == self.calls_for(),
    {
        match self {
            ErrorClass::Transient => Disposition::Retry,
            ErrorClass::Fatal => Disposition::Halt,
        }
    }
}

/// An error that knows its class.
pub trait Classified {
    /// The class of the error.
    spec fn class_of(&self) -> ErrorClass;

    /// The class of the error.
    fn class(&self) -> (r: ErrorClass)
        ensures
            r == self.class_of(),
    ;

    /// What the error calls for.
    fn disposition(&self) -> (r: Disposition)
        ensures
            r == self.class_of().calls_for(),
    ;
}

impl Classified for RestError {
    /// A rate limit and a passing failure pass; a failure that no retry mends, and a spent attempt
    /// budget, do not.
    open spec fn class_of(&self) -> ErrorClass {
        match self {
            RestError::RateLimited { .. } | RestError::Transient(_) => ErrorClass::Transient,
            RestError::Fatal(_) | RestError::Exhausted { .. } => ErrorClass::Fatal,
        }
    }

    fn class(&self) -> (r: ErrorClass) {
        match self {
            RestError::RateLimited { .. } => ErrorClass::Transient,
            RestError::Transient(_) => ErrorClass::Transient,
            RestError::Fatal(_) => ErrorClass::Fatal,
            RestError::Exhausted { .. } => ErrorClass::Fatal,
        }
    }

    fn disposition(&self) -> (r: Disposition) {
        self.class().disposition()
    }
}

impl Classified for WsError {
    /// A socket can be opened again, so every failure of one passes.
    open spec fn class_of(&self) -> ErrorClass {
        ErrorClass::Transient
    }

    fn class(&self) -> (r: ErrorClass) {
        match self {
            WsError::Connect(_) => ErrorClass::Transient,
            WsError::Subscribe(_) => ErrorClass::Transient,
            WsError::Closed => ErrorClass::Transient,
        }
    }

    fn disposition(&self) -> (r: Disposition) {
        self.class().disposition()
    }
}

impl Classified for UserDataError {
    /// The stream can be established again, so every failure of it passes.
    open spec fn class_of(&self) -> ErrorClass {
        ErrorClass::Transient
    }

    fn class(&self) -> (r: ErrorClass) {
        match self {
            UserDataError::ListenKey(_) => ErrorClass::Transient,
            UserDataError::Connect(_) => ErrorClass::Transient,
            UserDataError::Snapshot(_) => ErrorClass::Transient,
        }
    }

    fn disposition(&self) -> (r: Disposition) {
        self.class().disposition()
    }
}

/// A rate limit and a passing failure call for another try; a failure that does not pass, and a spent attempt
/// budget, for a stop. Sockets and private streams can be opened again, so their failures call for another
/// try.
pub proof fn law_failures_call_for_what_mends_them(rest: RestError, ws: WsError, user: UserDataError)
    ensures
        rest.class_of().calls_for() == Disposition::Retry <==> rest is RateLimited
            || rest is Transient,
        rest.class_of().calls_for() == Disposition::Halt <==> rest is Fatal || rest is Exhausted,
        ws.class_of().calls_for() == Disposition::Retry,
        user.class_of().calls_for() == Disposition::Retry,
        rest.class_of() == ErrorClass::Fatal <==> rest.class_of().calls_for() == Disposition::Halt,
{
}

} // verus!
