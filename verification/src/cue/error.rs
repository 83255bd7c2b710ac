//! The structured error a failed parse returns: the 0-based line index at
//! which the fault was detected and a human-readable message.

use vstd::prelude::*;

verus! {

/// A parse fault, attributed to the line where it was detected.
#[derive(Debug)]
pub struct Error {
    pub ln: usize,
    pub msg: String,
}

/// Mathematical counterpart of `Error`.
pub struct ErrV {
    pub ln: int,
    pub msg: Seq<char>,
}

impl View for Error {
    type V = ErrV;

    open spec fn view(&self) -> ErrV {
        ErrV { ln: self.ln as int, msg: self.msg@ }
    }
}

/// Attaching a line number to an error that so far carries only a message.
pub trait ErrorCtx<T>: Sized {
    /// The success value, if any.
    spec fn spec_ok(self) -> Option<T>;

    /// The message, where there is no success value.
    spec fn spec_msg(self) -> Seq<char>;

    fn line(self, ln: usize) -> (r: Result<T, Error>)
        ensures
            match r {
                Ok(t) => self.spec_ok() == Some(t),
                Err(e) => self.spec_ok() is None && e.ln == ln && e.msg@ == self.spec_msg(),
            },
    ;
}

impl<T> ErrorCtx<T> for Result<T, String> {
    open spec fn spec_ok(self) -> Option<T> {
        match self {
            Ok(t) => Some(t),
            Err(_) => None,
        }
    }

    open spec fn spec_msg(self) -> Seq<char> {
        match self {
            Ok(_) => Seq::empty(),
            Err(m) => m@,
        }
    }

    fn line(self, ln: usize) -> (r: Result<T, Error>) {
        match self {
            Ok(t) => Ok(t),
            Err(msg) => Err(Error { ln, msg }),
        }
    }
}

} // verus!
