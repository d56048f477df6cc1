//! Application-level error taxonomy for the feature layers around the
//! engine.  Outside causes arrive as plain messages; the shell that talks to
//! databases, serializers and the platform converts its own errors into these
//! variants.

use vstd::prelude::*;

verus! {

/// An application error: something missing, something rejected, or anything
/// else, each with its message.
#[derive(Debug)]
pub enum AppError {
    NotFound(String),
    Validation(String),
    Generic(String),
}

impl AppError {
    /// The message carried by the error.
    pub fn message(&self) -> (r: &String)
        ensures
            match self {
                AppError::NotFound(m) => r@ == m@,
                AppError::Validation(m) => r@ == m@,
                AppError::Generic(m) => r@ == m@,
            },
    {
        match self {
            AppError::NotFound(m) => m,
            AppError::Validation(m) => m,
            AppError::Generic(m) => m,
        }
    }
}

} // verus!
