//! The write op: owned outgoing bytes and the reading of its completion.

use vstd::prelude::*;
use crate::cqe::CqeResult;
use crate::driver::Action;

verus! {

/// Payload of a write op: the bytes the kernel reads from, owned for the
/// whole life of the request.
pub struct Write {
    pub buf: Vec<u8>,
}

impl Action<Write> {
    /// Read the terminal completion of a write op: the number of bytes
    /// written on success, the errno otherwise.
    pub fn poll_write(&mut self, cqe: CqeResult) -> (r: Result<usize, u32>)
        ensures
            r == (match cqe.result {
                Ok(n) => Ok::<usize, u32>(n as usize),
                Err(e) => Err::<usize, u32>(e),
            }),
    {
        match cqe.result {
            Ok(n) => Ok(n as usize),
            Err(e) => Err(e),
        }
    }
}

} // verus!
