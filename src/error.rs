use vstd::prelude::*;

verus! {

/// An error reported while a response was framed by the ingress manager.
#[derive(Debug, Clone, PartialEq, Eq)]
pub enum InternalError {
    /// The device answered with an error line; its text is kept.
    Error(Vec<u8>),
    /// The ingress manager gave up waiting for the rest of a response.
    Timeout,
    /// The device output could not be framed as a response.
    InvalidResponse,
}

/// A device error as a command declares it.
#[derive(Debug, Clone, Copy, PartialEq, Eq, Structural)]
pub enum CmdError {
    /// The fallback of commands that declare no error table of their own.
    Generic,
    /// A code from the command's own error table.
    Code(u32),
}

/// What a `send` or `check_response` call surfaces to its caller.
#[derive(Debug, Clone, PartialEq, Eq)]
pub enum Error<E> {
    /// Writing or flushing the serial transport failed; the command was not sent.
    Write,
    /// No response arrived within the command's deadline.
    Timeout,
    /// The response bytes did not decode into the declared response shape.
    Parse,
    /// The device reported an error, mapped into the command's error type.
    Error(E),
}

/// A polled outcome: either a terminal error or "not ready yet".
#[derive(Debug, Clone, PartialEq, Eq)]
pub enum NbError<E> {
    /// A terminal error.
    Other(E),
    /// The operation is not finished; poll again.
    WouldBlock,
}

} // verus!
