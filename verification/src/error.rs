//! What can go wrong in the engine.

use vstd::prelude::*;
use vstd::string::*;

verus! {

/// An error of the engine.
#[derive(Debug)]
pub enum TraceError {
    /// No session has the given id.
    SessionNotFound(String),
    /// Anything else, told in words.
    Internal(String),
}

/// An error, its text taken by its characters.
pub enum ErrorView {
    SessionNotFound(Seq<char>),
    Internal(Seq<char>),
}

impl View for TraceError {
    type V = ErrorView;

    open spec fn view(&self) -> ErrorView {
        match self {
            TraceError::SessionNotFound(id) => ErrorView::SessionNotFound(id@),
            TraceError::Internal(text) => ErrorView::Internal(text@),
        }
    }
}

/// How an error reads.
pub open spec fn error_text(e: ErrorView) -> Seq<char> {
    match e {
        ErrorView::SessionNotFound(id) => "Session not found: "@ + id,
        ErrorView::Internal(text) => text,
    }
}

impl TraceError {
    /// How the error reads.
    pub fn message(&self) -> (r: String)
        ensures
            r@ == error_text(self@),
    {
        match self {
            TraceError::SessionNotFound(id) => {
                let mut m = "Session not found: ".to_owned();
                m.append(id.as_str());
                m
            },
            TraceError::Internal(text) => text.clone(),
        }
    }
}

/// An error is told by its own text; that no session has an id, by the id behind the words for it.
pub proof fn law_errors_are_told_in_words(text: String, id: Seq<char>)
    ensures
        error_text(ErrorView::Internal(text@)) == text@,
        error_text(ErrorView::SessionNotFound(id)) == "Session not found: "@ + id,
        TraceError::Internal(text)@ == ErrorView::Internal(text@),
        TraceError::SessionNotFound(text)@ == ErrorView::SessionNotFound(text@),
{
}

} // verus!
