//! Errors of the kernel's first stage.
use vstd::prelude::*;

verus! {

#[derive(Debug, Clone, Copy, PartialEq, Eq, Structural)]
pub enum ErrorStatus {
    InvalidFileFormat,
}

#[derive(Debug, Clone, Copy, PartialEq, Eq, Structural)]
pub struct Error {
    status: ErrorStatus,
}

impl Error {
    /// What went wrong.
    pub closed spec fn kind(&self) -> ErrorStatus {
        self.status
    }

    pub fn new(status: ErrorStatus) -> (r: Error)
        ensures
            r.kind() == status,
    {
        Error { status }
    }

    /// What went wrong.
    pub fn status(&self) -> (r: ErrorStatus)
        ensures
            r == self.kind(),
    {
        self.status
    }
}

} // verus!
