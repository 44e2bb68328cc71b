use vstd::prelude::*;

verus! {

/// A failure reported by an output port.
#[derive(Debug, Clone, Copy, PartialEq, Eq, Structural)]
pub enum IoError {
    /// The output was already closed.
    AlreadyClosed,
    /// The channel behind the port has failed.
    Disconnected,
}

/// A failure of a computation step.
#[derive(Debug, Clone, Copy, PartialEq, Eq, Structural)]
pub struct JobExecError {
    /// An identifier of the failure, chosen by the computation.
    pub code: u32,
    /// Whether firing the operator again later is safe and may make progress.
    pub retryable: bool,
}

/// The code of a computation error that stands for a port's I/O failure.
pub const IO_FAILURE: u32 = 2;

impl JobExecError {
    /// The error that a port's I/O failure becomes: it is not retryable.
    pub fn from_io(e: IoError) -> (r: JobExecError)
        ensures
            r == (JobExecError { code: IO_FAILURE, retryable: false }),
    {
        JobExecError { code: IO_FAILURE, retryable: false }
    }

    pub fn new(code: u32, retryable: bool) -> (r: JobExecError)
        ensures
            r.code == code,
            r.retryable == retryable,
    {
        JobExecError { code, retryable }
    }

    pub fn can_be_retried(&self) -> (r: bool)
        ensures
            r == self.retryable,
    {
        self.retryable
    }
}

} // verus!
