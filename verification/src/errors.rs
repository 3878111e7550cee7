use vstd::prelude::*;

verus! {

/// Why an integrity check refused a byte buffer.
#[derive(Clone, Copy, PartialEq, Eq, Structural, Debug)]
pub enum IntegrityError {
    /// The digest of the bytes differs from the declared digest.
    Mismatch,
    /// The declared digest is not a well-formed hexadecimal string.
    BadEncoding,
}

/// The failures a transfer operation surfaces to its caller.
#[derive(Clone, Copy, PartialEq, Eq, Structural, Debug)]
pub enum FileError {
    /// The end-to-end integrity check blocked the transfer.
    Integrity(IntegrityError),
    /// The peer refused the remote call.
    Unauthorized,
    /// The backing store could not persist an entry.
    Storage,
    /// No chunk is stored under a requested address.
    NotFound,
}

/// Wraps a failure as the error result an exposed operation returns.
pub fn error<T>(reason: FileError) -> (r: Result<T, FileError>)
    ensures
        r == Result::<T, FileError>::Err(reason),
{
    Err(reason)
}

} // verus!
