//! An embeddable HTTP request-routing and middleware-composition engine.
//!
//! Given a registered set of (method, path pattern) -> handler-chain bindings,
//! the router matches an incoming request to a route, extracts path variables,
//! and threads the request, response and per-request state through an ordered
//! sequence of handler functions, short-circuiting on the first failure.

use vstd::prelude::*;

pub mod app;
pub mod handler;
pub mod laws;
pub mod message;
pub mod params;
pub mod path;
pub mod router;
pub mod state;

use crate::message::{Request, Response};

verus! {

/// An error for server-related issues, carried by the (out-of-scope) listener
/// glue around the routing core.
#[derive(Clone, Debug)]
pub struct ServerError(pub String);

impl ServerError {
    /// Wrap a message in a `ServerError`.
    pub fn new(message: String) -> (r: Self)
        ensures
            r.0@ == message@,
    {
        ServerError(message)
    }
}

/// General errors for handlers. Yield either a literal status code with a
/// message body, or a message alone, which the application shell maps to an
/// HTTP 500 Internal Server Error.
#[derive(Clone, Debug)]
pub enum Error {
    StatusCode(u16, String),
    InternalServerError(String),
}

impl Error {
    /// Construct a generic internal-server-error with the given message.
    pub fn new(message: &str) -> (r: Self)
        ensures
            r matches Error::InternalServerError(m) && m@ == message@,
    {
        Error::InternalServerError(message.to_owned())
    }

    /// Return status codes with informational bodies.
    pub fn new_status(error: u16, message: &str) -> (r: Self)
        ensures
            r matches Error::StatusCode(s, m) && s == error && m@ == message@,
    {
        Error::StatusCode(error, message.to_owned())
    }
}

impl Default for Error {
    fn default() -> (r: Self)
        ensures
            r matches Error::InternalServerError(m) && m@ == "internal server error"@,
    {
        Error::InternalServerError("internal server error".to_owned())
    }
}

/// Implemented by application error types that know their HTTP status.
pub trait ToStatus {
    fn to_status(&self) -> Error;
}

/// The return type of a single handler invocation and of a whole chain: on
/// success the possibly-replaced request, the possibly-set response and the
/// forwarded transient state; on failure the error that stops the chain.
pub type HTTPResult<T> = Result<(Request, Option<Response>, T), Error>;

/// TransientState must be implemented to use state between handlers.
pub trait TransientState: Clone + Send {
    /// Prescribes an initial state, allowing it to be constructed fresh at
    /// dispatch time.
    fn initial() -> Self;
}

/// An empty [`TransientState`].
#[derive(Clone, Debug)]
pub struct NoState;

impl TransientState for NoState {
    fn initial() -> Self {
        NoState
    }
}

} // verus!
