//! The timeout op: payload and the three-way reading of its completion.

use vstd::prelude::*;
use crate::cqe::CqeResult;
use crate::driver::Action;

verus! {

/// Errno the kernel reports when a timeout elapses.
pub const ETIME: u32 = 62;

/// Errno of a canceled operation.
pub const ECANCELED: u32 = 125;

/// Payload of a standalone timeout op: the requested expiry.
pub struct Timeout {
    pub sec: u64,
    pub nsec: u32,
}

/// How a timeout op resolved.
#[derive(Clone, Copy, Debug, PartialEq, Eq)]
pub enum State {
    /// The timeout elapsed.
    Elapsed,
    /// The timeout was canceled.
    Canceled,
    /// A linked sibling op completed first.
    Link,
}

/// Why a timeout op failed.
#[derive(Clone, Copy, Debug, PartialEq, Eq)]
pub enum TimeoutError {
    /// An operating-system error other than the expected pair.
    Os(u32),
    /// A success count other than zero: a protocol violation.
    Unexpected(u32),
}

/// What a timeout completion means: elapsing reports as a timer errno,
/// cancellation as a cancel errno, a zero count as a fired link; every
/// other error passes through and every other count is a violation.
pub open spec fn spec_poll_timeout(res: Result<u32, u32>) -> Result<State, TimeoutError> {
    match res {
        Err(e) => if e == ETIME {
            Ok(State::Elapsed)
        } else if e == ECANCELED {
            Ok(State::Canceled)
        } else {
            Err(TimeoutError::Os(e))
        },
        Ok(n) => if n == 0 {
            Ok(State::Link)
        } else {
            Err(TimeoutError::Unexpected(n))
        },
    }
}

impl Action<Timeout> {
    /// Read the terminal completion of a timeout op.
    pub fn poll_timeout(&mut self, cqe: CqeResult) -> (r: Result<State, TimeoutError>)
        ensures
            r == spec_poll_timeout(cqe.result),
    {
        match cqe.result {
            Err(e) => {
                if e == ETIME {
                    Ok(State::Elapsed)
                } else if e == ECANCELED {
                    Ok(State::Canceled)
                } else {
                    Err(TimeoutError::Os(e))
                }
            },
            Ok(n) => {
                if n == 0 {
                    Ok(State::Link)
                } else {
                    Err(TimeoutError::Unexpected(n))
                }
            },
        }
    }
}

} // verus!
