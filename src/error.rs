use vstd::prelude::*;

verus! {

/// The category of a failure reported by this library.
#[derive(Clone, Copy, Debug, PartialEq, Eq, Structural)]
pub enum ErrorKind {
    InvalidArgument,
    NotFound,
    AlreadyExists,
    InvalidCiphertext,
    InvalidVersion,
    IoError,
    Internal,
}

/// The one error type of the library: a category plus a context message.
#[derive(Clone, Debug)]
pub struct TinkError {
    pub kind: ErrorKind,
    pub msg: String,
}

impl TinkError {
    pub fn new(kind: ErrorKind, msg: &str) -> (r: TinkError)
        ensures
            r.kind == kind,
            r.msg@ == msg@,
    {
        TinkError { kind, msg: msg.to_string() }
    }

    /// The message, for display.
    pub fn message(&self) -> (r: String)
        ensures
            r@ == self.msg@,
    {
        self.msg.clone()
    }
}

} // verus!
