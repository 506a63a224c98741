use vstd::prelude::*;

verus! {

/// A connection that a file sender writes to. Implement it for a socket.
pub trait Server {
    /// Hands a prefix of `buf` to the connection and says how long it was.
    fn write(&mut self, buf: &[u8]) -> (r: Result<usize, String>)
        ensures
            r matches Ok(n) ==> n <= buf@.len(),
    ;

    /// Receives into `buf`.
    fn download(&self, buf: &mut [u8]) -> (r: Result<(), String>)
        ensures
            final(buf)@.len() == old(buf)@.len(),
    ;
}

} // verus!
