//! The errors of the library.

use vstd::prelude::*;

verus! {

/// Why an operation was refused.
pub enum AppError {
    /// A path that must not be used.
    Path(String),
    /// A directory that does not hold what a Codex directory holds.
    InvalidCodexDir(String),
    /// Something that was asked for and is not there.
    NotFound(String),
    /// What the file system or the database answered.
    Outside(String),
    /// Any other refusal.
    Other(String),
}

/// What an [`AppError`] holds.
#[verifier::ext_equal]
pub enum ErrorView {
    Path(Seq<char>),
    InvalidCodexDir(Seq<char>),
    NotFound(Seq<char>),
    Outside(Seq<char>),
    Other(Seq<char>),
}

impl View for AppError {
    type V = ErrorView;

    open spec fn view(&self) -> ErrorView {
        match *self {
            AppError::Path(text) => ErrorView::Path(text@),
            AppError::InvalidCodexDir(text) => ErrorView::InvalidCodexDir(text@),
            AppError::NotFound(text) => ErrorView::NotFound(text@),
            AppError::Outside(text) => ErrorView::Outside(text@),
            AppError::Other(text) => ErrorView::Other(text@),
        }
    }
}

/// The text of an error.
pub open spec fn error_text(error: ErrorView) -> Seq<char> {
    match error {
        ErrorView::Path(text) => text,
        ErrorView::InvalidCodexDir(text) => text,
        ErrorView::NotFound(text) => text,
        ErrorView::Outside(text) => text,
        ErrorView::Other(text) => text,
    }
}

impl AppError {
    /// The text of this error.
    pub fn message(&self) -> (text: &String)
        ensures
            text@ == error_text(self@),
    {
        match self {
            AppError::Path(text) => text,
            AppError::InvalidCodexDir(text) => text,
            AppError::NotFound(text) => text,
            AppError::Outside(text) => text,
            AppError::Other(text) => text,
        }
    }

    /// An error of the same kind and text.
    pub fn copy(&self) -> (error: AppError)
        ensures
            error@ == self@,
    {
        match self {
            AppError::Path(text) => AppError::Path(text.clone()),
            AppError::InvalidCodexDir(text) => AppError::InvalidCodexDir(text.clone()),
            AppError::NotFound(text) => AppError::NotFound(text.clone()),
            AppError::Outside(text) => AppError::Outside(text.clone()),
            AppError::Other(text) => AppError::Other(text.clone()),
        }
    }
}

/// What the outcome of an operation without a result holds.
pub open spec fn unit_outcome(outcome: Result<(), AppError>) -> Result<(), ErrorView> {
    match outcome {
        Ok(()) => Ok(()),
        Err(error) => Err(error@),
    }
}

/// What the outcome of a test holds.
pub open spec fn bool_outcome(outcome: Result<bool, AppError>) -> Result<bool, ErrorView> {
    match outcome {
        Ok(flag) => Ok(flag),
        Err(error) => Err(error@),
    }
}

/// What the outcome of an operation that gives a text holds.
pub open spec fn text_outcome(outcome: Result<String, AppError>) -> Result<Seq<char>, ErrorView> {
    match outcome {
        Ok(text) => Ok(text@),
        Err(error) => Err(error@),
    }
}

} // verus!
