//! Framing rules of the local request channel: one read takes one whole
//! request, one write sends one whole response, and an exchange of zero bytes
//! means that the peer went away.
use vstd::prelude::*;

verus! {

/// Why an exchange on the request channel failed.
#[derive(Debug)]
pub enum IpcError {
    /// The peer closed the channel.
    ClientDisconnected,
    /// The request bytes do not decode.
    RequestDeserialization,
    /// The response could not be encoded.
    ResponseSerialization,
    /// The channel itself failed; the text says how.
    Io(String),
}

/// The length of the request that a read of `n` bytes delivered.
pub fn received_len(n: usize) -> (r: Result<usize, IpcError>)
    ensures
        n == 0 ==> r matches Err(IpcError::ClientDisconnected),
        n > 0 ==> (r matches Ok(m) && m == n),
{
    if n == 0 {
        Err(IpcError::ClientDisconnected)
    } else {
        Ok(n)
    }
}

/// Whether a write that took `n` bytes delivered the response.
pub fn sent_len(n: usize) -> (r: Result<(), IpcError>)
    ensures
        n == 0 ==> r matches Err(IpcError::ClientDisconnected),
        n > 0 ==> r is Ok,
{
    if n == 0 {
        Err(IpcError::ClientDisconnected)
    } else {
        Ok(())
    }
}

} // verus!
