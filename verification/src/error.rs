//! Message-string errors, with helpers to wrap a result's error in context.

use vstd::prelude::*;
use vstd::string::StringExecFns;

verus! {

/// The crate's error type: a human-readable message.
pub type Error = String;

/// A result carrying a message-string error.
pub type AppResult<T> = core::result::Result<T, Error>;

/// Makes an error value out of a message.
pub fn err_msg(msg: &str) -> (r: Error)
    ensures
        r@ == msg@,
{
    msg.to_owned()
}

/// Context-wrapping helpers for results whose error is a message string:
/// the wrapped message reads `"context: underlying error"`.
pub trait ResultExt<T>: Sized {
    /// Whether this result is a success.
    spec fn spec_is_ok(&self) -> bool;

    /// The success value, when there is one.
    spec fn spec_value(&self) -> T;

    /// The error message, when there is one.
    spec fn spec_err(&self) -> Seq<char>;

    /// Prefixes the error, if any, with a fixed context message.
    fn context(self, context: &str) -> (r: AppResult<T>)
        ensures
            self.spec_is_ok() ==> (r matches Ok(v) && v == self.spec_value()),
            !self.spec_is_ok() ==> (r matches Err(e) && e@ == context@ + ": "@ + self.spec_err()),
    ;

    /// Prefixes the error, if any, with a context message computed from it.
    fn with_context<F: FnOnce(&Error) -> String>(self, f: F) -> (r: AppResult<T>)
        requires
            forall|e: &Error| #[trigger] call_requires(f, (e,)),
        ensures
            self.spec_is_ok() ==> (r matches Ok(v) && v == self.spec_value()),
            !self.spec_is_ok() ==> (r matches Err(e) && exists|c: String, e0: &Error|
                {
                    &&& e0@ == self.spec_err()
                    &&& #[trigger] call_ensures(f, (e0,), c)
                    &&& e@ == c@ + ": "@ + self.spec_err()
                }),
    ;
}

impl<T> ResultExt<T> for AppResult<T> {
    open spec fn spec_is_ok(&self) -> bool {
        self is Ok
    }

    open spec fn spec_value(&self) -> T {
        self->Ok_0
    }

    open spec fn spec_err(&self) -> Seq<char> {
        self->Err_0@
    }

    fn context(self, context: &str) -> (r: AppResult<T>)
    {
        match self {
            Ok(v) => Ok(v),
            Err(error) => {
                let mut msg = context.to_owned();
                msg.append(": ");
                msg.append(error.as_str());
                Err(msg)
            },
        }
    }

    fn with_context<F: FnOnce(&Error) -> String>(self, f: F) -> (r: AppResult<T>)
    {
        match self {
            Ok(v) => Ok(v),
            Err(error) => {
                let mut msg = f(&error);
                msg.append(": ");
                msg.append(error.as_str());
                Err(msg)
            },
        }
    }
}

} // verus!
