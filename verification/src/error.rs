//! Error taxonomy shared by the whole engine.

use vstd::prelude::*;

verus! {

/// Application-level error classes.
///
/// `Validation` covers malformed input (bad vote value, non-positive limit),
/// `Conflict` a uniqueness clash, `NotFound` a missing row, `Unauthorized` a
/// failed credential check, and `Other` wraps the message of an underlying
/// storage or infrastructure failure.
#[derive(Debug)]
pub enum AppError {
    Validation(String),
    Conflict(String),
    NotFound(String),
    Unauthorized,
    Other(String),
}

impl AppError {
    pub fn validation(msg: String) -> (e: Self)
        ensures
            e == AppError::Validation(msg),
    {
        AppError::Validation(msg)
    }

    pub fn conflict(msg: String) -> (e: Self)
        ensures
            e == AppError::Conflict(msg),
    {
        AppError::Conflict(msg)
    }

    pub fn not_found(msg: String) -> (e: Self)
        ensures
            e == AppError::NotFound(msg),
    {
        AppError::NotFound(msg)
    }

    /// A short label for the error class, usable in logs and responses.
    pub fn class_name(&self) -> (s: &'static str)
        ensures
            s@ == self.spec_class_name(),
    {
        match self {
            AppError::Validation(_) => "validation error",
            AppError::Conflict(_) => "conflict",
            AppError::NotFound(_) => "not found",
            AppError::Unauthorized => "unauthorized",
            AppError::Other(_) => "internal error",
        }
    }

    pub open spec fn spec_class_name(&self) -> Seq<char> {
        match self {
            AppError::Validation(_) => "validation error"@,
            AppError::Conflict(_) => "conflict"@,
            AppError::NotFound(_) => "not found"@,
            AppError::Unauthorized => "unauthorized"@,
            AppError::Other(_) => "internal error"@,
        }
    }
}

} // verus!
