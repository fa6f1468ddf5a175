//! The failures that the engine reports to its callers.

use vstd::prelude::*;
use vstd::string::*;

verus! {

/// Why a request failed.
#[derive(Debug)]
pub enum EngineError {
    /// The request itself was not acceptable.
    BadRequest(String),
    /// The run asked for does not exist.
    NotFound(String),
    /// The engine, or the scorer it relies on, failed.
    InternalError(String),
}

/// What an error holds, as plain values.
pub ghost enum EngineErrorView {
    BadRequest(Seq<char>),
    NotFound(Seq<char>),
    InternalError(Seq<char>),
}

impl View for EngineError {
    type V = EngineErrorView;

    open spec fn view(&self) -> EngineErrorView {
        match self {
            EngineError::BadRequest(detail) => EngineErrorView::BadRequest(detail@),
            EngineError::NotFound(detail) => EngineErrorView::NotFound(detail@),
            EngineError::InternalError(detail) => EngineErrorView::InternalError(detail@),
        }
    }
}

impl EngineErrorView {
    /// The status that answers a request which failed so.
    pub open spec fn status(self) -> u16 {
        match self {
            EngineErrorView::BadRequest(_) => 400,
            EngineErrorView::NotFound(_) => 404,
            EngineErrorView::InternalError(_) => 500,
        }
    }

    /// The error in words: its kind, then its detail.
    pub open spec fn text(self) -> Seq<char> {
        match self {
            EngineErrorView::BadRequest(detail) => "bad request: "@ + detail,
            EngineErrorView::NotFound(detail) => "not found: "@ + detail,
            EngineErrorView::InternalError(detail) => "internal error: "@ + detail,
        }
    }
}

impl EngineError {
    /// The status that answers a request which failed so: 400, 404 or 500.
    pub fn status(&self) -> (code: u16)
        ensures
            code == self@.status(),
    {
        match self {
            EngineError::BadRequest(_) => 400,
            EngineError::NotFound(_) => 404,
            EngineError::InternalError(_) => 500,
        }
    }

    /// The error in words: its kind, then its detail.
    pub fn message(&self) -> (text: String)
        ensures
            text@ == self@.text(),
    {
        match self {
            EngineError::BadRequest(detail) => String::from_str("bad request: ").concat(
                detail.as_str(),
            ),
            EngineError::NotFound(detail) => String::from_str("not found: ").concat(
                detail.as_str(),
            ),
            EngineError::InternalError(detail) => String::from_str("internal error: ").concat(
                detail.as_str(),
            ),
        }
    }
}

pub fn bad_request(detail: &str) -> (e: EngineError)
    ensures
        e@ == EngineErrorView::BadRequest(detail@),
{
    EngineError::BadRequest(String::from_str(detail))
}

pub fn not_found(detail: &str) -> (e: EngineError)
    ensures
        e@ == EngineErrorView::NotFound(detail@),
{
    EngineError::NotFound(String::from_str(detail))
}

pub fn internal_error(detail: &str) -> (e: EngineError)
    ensures
        e@ == EngineErrorView::InternalError(detail@),
{
    EngineError::InternalError(String::from_str(detail))
}

} // verus!
