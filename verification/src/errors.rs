use vstd::prelude::*;

verus! {

/// Error taxonomy of the library.
///
/// `NotFound` covers both a genuinely absent row and an unpublished article
/// requested by a non-admin: the two are deliberately indistinguishable so
/// that existence of hidden content does not leak. `Unauthorized` means the
/// caller's identity lacks the required capability. `ValidationFailure` is a
/// malformed input (form, cookie, or id). `StoreFailure` is an opaque
/// persistence error. `RenderFailure` is a failed transformation to display
/// form, kept distinct from store errors.
#[derive(Clone, Copy, PartialEq, Eq, Structural, Debug)]
pub enum BlogError {
    NotFound,
    Unauthorized,
    ValidationFailure,
    StoreFailure,
    RenderFailure,
}

/// The generic description of each error, for boundary layers that map
/// errors to a wire status and a body.
pub open spec fn message_spec(e: BlogError) -> Seq<char> {
    match e {
        BlogError::NotFound => "not found"@,
        BlogError::Unauthorized => "not authorized"@,
        BlogError::ValidationFailure => "invalid input"@,
        BlogError::StoreFailure => "storage error"@,
        BlogError::RenderFailure => "render error"@,
    }
}

impl BlogError {
    /// A generic, non-specific description of the error.
    pub fn message(&self) -> (r: &'static str)
        ensures
            r@ == message_spec(*self),
    {
        match self {
            BlogError::NotFound => "not found",
            BlogError::Unauthorized => "not authorized",
            BlogError::ValidationFailure => "invalid input",
            BlogError::StoreFailure => "storage error",
            BlogError::RenderFailure => "render error",
        }
    }
}

} // verus!
