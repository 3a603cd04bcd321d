use vstd::prelude::*;

verus! {

/// What can go wrong in a store operation.
#[derive(Debug, Clone)]
pub enum AppError {
    /// The target is absent, or is not a regular file.
    NotFound(String),
    /// A key whose path would leave the store; holds the key as given.
    PathTraversal(String),
    /// A filesystem failure, described.
    Io(String),
    /// The clipboard failed, described.
    Clipboard(String),
}

impl AppError {
    pub fn not_found(message: String) -> (e: AppError)
        ensures
            e is NotFound,
            e->NotFound_0@ == message@,
    {
        AppError::NotFound(message)
    }

    /// The text shown to a user for this error.
    pub fn message(&self) -> (r: String)
        ensures
            self is NotFound ==> r@ == self->NotFound_0@,
            self is PathTraversal ==> r@ == "Path traversal rejected for key: "@ + self->PathTraversal_0@,
            self is Io ==> r@ == "I/O error: "@ + self->Io_0@,
            self is Clipboard ==> r@ == "Clipboard error: "@ + self->Clipboard_0@,
    {
        match self {
            AppError::NotFound(m) => m.clone(),
            AppError::PathTraversal(k) => {
                let mut r = String::from_str("Path traversal rejected for key: ");
                r.append(k.as_str());
                r
            },
            AppError::Io(m) => {
                let mut r = String::from_str("I/O error: ");
                r.append(m.as_str());
                r
            },
            AppError::Clipboard(m) => {
                let mut r = String::from_str("Clipboard error: ");
                r.append(m.as_str());
                r
            },
        }
    }
}

} // verus!
