use vstd::prelude::*;

verus! {

/// The ways a request can fail; each maps to an HTTP status.
#[derive(Debug, Clone, Copy, PartialEq, Eq, Structural)]
pub enum ServeError {
    /// The file system could not be read or written.
    IoError,
    /// The name is unknown, or unsafe to join to the root.
    NotFoundError,
    /// Bytes read and bytes sent disagree during a download.
    TransferError,
    /// The multipart header could not be parsed.
    MalformedFormError,
    /// The multipart header did not fit in the header buffer.
    FormTooLongError,
}

pub open spec fn status_of(e: ServeError) -> u16 {
    match e {
        ServeError::IoError => 500,
        ServeError::NotFoundError => 404,
        ServeError::TransferError => 500,
        ServeError::MalformedFormError => 400,
        ServeError::FormTooLongError => 413,
    }
}

impl ServeError {
    /// The HTTP status that answers a request failing with this error.
    pub fn status_code(&self) -> (r: u16)
        ensures
            r == status_of(*self),
    {
        match self {
            ServeError::IoError => 500,
            ServeError::NotFoundError => 404,
            ServeError::TransferError => 500,
            ServeError::MalformedFormError => 400,
            ServeError::FormTooLongError => 413,
        }
    }
}

} // verus!
