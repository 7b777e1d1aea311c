use vstd::prelude::*;

verus! {

/// The conditions that the session layer reports to its caller.
#[derive(Clone, Copy, Debug, PartialEq, Eq, Structural)]
pub enum SessionError {
    /// A filter attribute is present but its value is not text.
    ArgumentsInvalid,
    /// The remote key service failed a list or get request.
    DeviceError,
    /// A search was started on a session that already has one.
    OperationActive,
    /// The handle names no open session.
    InvalidHandle,
}

} // verus!
