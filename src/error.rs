use vstd::prelude::*;

verus! {

/// Errors surfaced by the bridge through the native error channel.
#[derive(Clone, Debug, PartialEq, Eq)]
pub enum BridgeError {
    /// The host raised an exception or a value could not cross the boundary;
    /// carries the host diagnostic.
    HostCall(String),
    /// Opening a file on the host filesystem failed.
    Open { path: String, message: String },
    /// A host read failed; carries the file's path and the host diagnostic.
    Read { path: String, message: String },
    /// A host read of the file reported a negative byte count.
    NegativeReadCount { path: String, returned: i32 },
    /// A host read of the file reported more bytes than the buffer holds.
    ReadOverrun { path: String, capacity: usize, returned: i32 },
    /// The read position in the file cannot be expressed as a host `long`,
    /// or would wrap.
    PositionOutOfRange { path: String, pos: u64 },
    /// The operation is not offered by this object store.
    NotImplemented(String),
}

} // verus!
