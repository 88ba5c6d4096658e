//! What the answers of the system mean.
use vstd::prelude::*;

verus! {

/// The failures of the system that the shell tells apart.
#[derive(Debug, Clone, Copy, PartialEq, Eq, Structural)]
pub enum ErrorKind {
    /// A signal came in between.
    Interrupted,
    /// There is no child process to wait for.
    NoChild,
    Other,
}

/// A failure of the system, with its text.
#[derive(Debug)]
pub struct SysError {
    pub kind: ErrorKind,
    pub text: String,
}

/// What to do after a call of the system.
#[derive(Debug)]
pub enum Attempt<T> {
    /// Make the call again.
    Again,
    /// The answer stands.
    Done(Result<T, SysError>),
}

/// Whether a signal came between a call and its answer.
pub open spec fn interrupted<T>(answer: Result<T, SysError>) -> bool {
    answer matches Err(e) && e.kind == ErrorKind::Interrupted
}

/// What to do after an answer.
pub open spec fn attempted<T>(answer: Result<T, SysError>) -> Attempt<T> {
    if interrupted(answer) {
        Attempt::Again
    } else {
        Attempt::Done(answer)
    }
}

/// A call that a signal interrupted is made again; any other answer stands.
pub fn syscall<T>(answer: Result<T, SysError>) -> (r: Attempt<T>)
    ensures
        r == attempted(answer),
{
    match answer {
        Err(e) => {
            if e.kind == ErrorKind::Interrupted {
                Attempt::Again
            } else {
                Attempt::Done(Err(e))
            }
        },
        Ok(v) => Attempt::Done(Ok(v)),
    }
}

} // verus!
