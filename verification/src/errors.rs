//! The two kinds of failure that a domain handler can report, and the
//! fatal error that the transport layer is handed in their place.

use vstd::prelude::*;
use crate::http::{Response, ResponseView};
use crate::text_map::TextMap;

verus! {

/// A failure reported by a domain handler.
#[derive(Debug)]
pub enum CargoError {
    /// An expected failure that is safe to describe to the caller. It may
    /// bring the response that the caller is to receive.
    Human { message: String, response: Option<Response> },
    /// An unexpected failure. Its description and detail are for
    /// diagnosis only and are never shown to the caller.
    Internal { description: String, detail: Option<String> },
}

/// What a domain handler returns.
pub type CargoResult<T> = Result<T, CargoError>;

/// An error escalated past this layer. The transport layer renders its
/// own generic failure response for it.
#[derive(Debug)]
pub struct FatalError {
    /// The failure that was escalated.
    pub error: CargoError,
}

/// A human error with the given message and no response of its own.
pub fn human(message: String) -> (error: CargoError)
    ensures
        error == (CargoError::Human { message, response: None }),
{
    CargoError::Human { message, response: None }
}

/// An internal error with the given description and no detail.
pub fn internal(description: String) -> (error: CargoError)
    ensures
        error == (CargoError::Internal { description, detail: None }),
{
    CargoError::Internal { description, detail: None }
}

/// An internal error with the given description and detail.
pub fn internal_error(description: String, detail: String) -> (error: CargoError)
    ensures
        error == (CargoError::Internal { description, detail: Some(detail) }),
{
    CargoError::Internal { description, detail: Some(detail) }
}

/// The human error for something that does not exist. It brings the
/// fixed 404 response.
pub fn not_found() -> (error: CargoError)
    ensures
        error matches CargoError::Human { message, response: Some(r) } && message@ == "Not Found"@
            && r@ == not_found_view(),
{
    CargoError::Human {
        message: "Not Found".to_owned(),
        response: Some(not_found_response()),
    }
}

/// The value of the fixed 404 response: no headers and an empty body.
pub open spec fn not_found_view() -> ResponseView {
    ResponseView {
        code: 404,
        reason: "Not Found"@,
        headers: Map::empty(),
        body: Seq::empty(),
    }
}

/// The fixed response for a request that nothing answers.
pub fn not_found_response() -> (response: Response)
    ensures
        response@ == not_found_view(),
        response@.well_formed(),
{
    Response { status: (404, "Not Found"), headers: TextMap::new(), body: Vec::new() }
}

/// Escalates a failure to the transport layer.
pub fn std_error(error: CargoError) -> (fatal: FatalError)
    ensures
        fatal.error == error,
{
    FatalError { error }
}

impl CargoError {
    /// The response that the caller is to receive for this failure, if it
    /// brings one. Only a human error can.
    pub open spec fn carried_response(self) -> Option<Response> {
        match self {
            CargoError::Human { response, .. } => response,
            CargoError::Internal { .. } => None,
        }
    }

    /// Whether this is a human error.
    pub fn is_human(&self) -> (yes: bool)
        ensures
            yes == (self is Human),
    {
        match self {
            CargoError::Human { .. } => true,
            CargoError::Internal { .. } => false,
        }
    }

    /// The text that describes the failure: the message of a human
    /// error, the description of an internal one.
    pub fn description(&self) -> (text: &str)
        ensures
            text@ == match *self {
                CargoError::Human { message, .. } => message@,
                CargoError::Internal { description, .. } => description@,
            },
    {
        match self {
            CargoError::Human { message, .. } => message.as_str(),
            CargoError::Internal { description, .. } => description.as_str(),
        }
    }

    /// Parts the failure into the response that it brings, or itself where
    /// it brings none.
    pub fn response(self) -> (parted: Result<Response, CargoError>)
        ensures
            match parted {
                Ok(response) => self.carried_response() == Some(response),
                Err(error) => self.carried_response() is None && error == self,
            },
    {
        match self {
            CargoError::Human { message, response: Some(response) } => Ok(response),
            other => Err(other),
        }
    }
}

} // verus!
