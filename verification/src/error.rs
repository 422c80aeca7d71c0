use vstd::prelude::*;

verus! {

/// Errors reported by the translation library.
#[derive(Debug, Clone, Copy, PartialEq, Eq, Structural)]
pub enum JTranslateError {
    InvalidData,
    InvalidKey,
    IOError,
    UnExpected,
}

/// The message that describes an error.
pub open spec fn error_message(e: JTranslateError) -> Seq<char> {
    match e {
        JTranslateError::InvalidData => "Invalid data"@,
        JTranslateError::InvalidKey => "Invalid API key"@,
        JTranslateError::IOError => "IO error"@,
        JTranslateError::UnExpected => "Unexpected error"@,
    }
}

impl JTranslateError {
    /// The message that describes this error.
    pub fn message(&self) -> (r: &'static str)
        ensures
            r@ == error_message(*self),
    {
        match self {
            JTranslateError::InvalidData => "Invalid data",
            JTranslateError::InvalidKey => "Invalid API key",
            JTranslateError::IOError => "IO error",
            JTranslateError::UnExpected => "Unexpected error",
        }
    }
}

} // verus!
