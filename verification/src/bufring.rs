//! Bookkeeping of the provided-buffer ring: which of the registered buffer
//! slots is checked out, and the classification of registration failures.
//!
//! The memory region itself and its registration with the kernel live
//! outside; this tracks the exclusive-checkout discipline: the kernel picks
//! a buffer for a recv-class op, the client checks it out by the reported
//! id, and the slot returns to the ring when the checkout is released.

use vstd::prelude::*;

verus! {

/// Buffer-group id the driver registers its ring under.
pub const BUF_BGID: u16 = 666;

/// Default number of ring slots (a power of two).
pub const DEFAULT_RING_ENTRIES: u16 = 128;

/// Default number of buffers backing the ring.
pub const DEFAULT_BUF_CNT: u16 = 128;

/// Default length of each buffer in bytes.
pub const DEFAULT_BUF_LEN: usize = 4096;

/// Errno for an invalid argument.
pub const EINVAL: u32 = 22;

/// Errno for something that already exists.
pub const EEXIST: u32 = 17;

/// Why registering the buffer ring failed.
#[derive(Clone, Copy, Debug, PartialEq, Eq)]
pub enum RegisterError {
    /// The kernel lacks provided-buffer-ring support.
    Unsupported,
    /// The buffer-group id is already registered.
    DuplicateGroup,
    /// Any other error, preserved verbatim.
    Generic(u32),
}

/// Map the errno of a failed buffer-ring registration to its meaning: an
/// invalid-argument error means the kernel is too old for buffer rings, an
/// already-exists error means the group id is taken, anything else passes
/// through.
pub fn classify_register_error(errno: u32) -> (r: RegisterError)
    ensures
        r == (if errno == EINVAL {
            RegisterError::Unsupported
        } else if errno == EEXIST {
            RegisterError::DuplicateGroup
        } else {
            RegisterError::Generic(errno)
        }),
{
    if errno == EINVAL {
        RegisterError::Unsupported
    } else if errno == EEXIST {
        RegisterError::DuplicateGroup
    } else {
        RegisterError::Generic(errno)
    }
}

/// Why a checkout request was refused.
#[derive(Clone, Copy, Debug, PartialEq, Eq)]
pub enum CheckoutError {
    /// The buffer id is outside the ring.
    BadId,
    /// The requested length exceeds the fixed buffer length.
    TooLong,
    /// The buffer is already checked out.
    AlreadyOut,
}

/// Occupancy state of the provided-buffer ring.
pub struct BufRingState {
    out: Vec<bool>,
    buf_len: usize,
}

impl BufRingState {
    /// Number of buffer slots in the ring.
    pub closed spec fn spec_entries(self) -> int {
        self.out@.len() as int
    }

    /// Whether the buffer under `bid` is currently checked out.
    pub closed spec fn checked_out(self, bid: int) -> bool {
        0 <= bid < self.out@.len() && self.out@[bid]
    }

    /// The fixed length of each buffer.
    pub closed spec fn spec_buf_len(self) -> int {
        self.buf_len as int
    }

    /// A ring of `entries` slots, each of `buf_len` bytes, all free.
    pub fn new(entries: u16, buf_len: usize) -> (r: BufRingState)
        ensures
            r.spec_entries() == entries as int,
            r.spec_buf_len() == buf_len as int,
            forall|bid: int| !r.checked_out(bid),
    {
        let mut out: Vec<bool> = Vec::new();
        let mut i: u16 = 0;
        while i < entries
            invariant
                0 <= i <= entries,
                out@.len() == i as int,
                forall|j: int| 0 <= j < i as int ==> !out@[j],
            decreases entries - i,
        {
            out.push(false);
            i = i + 1;
        }
        BufRingState { out, buf_len }
    }

    /// Check out the buffer under `bid`, truncated to `len` bytes: succeeds
    /// exactly when the id is in range, the length fits and the buffer is
    /// free; the buffer then becomes exclusive until released. No other
    /// slot changes.
    pub fn checkout(&mut self, len: usize, bid: u16) -> (r: Result<(), CheckoutError>)
        ensures
            final(self).spec_entries() == old(self).spec_entries(),
            final(self).spec_buf_len() == old(self).spec_buf_len(),
            r == (if bid as int >= old(self).spec_entries() {
                Err::<(), CheckoutError>(CheckoutError::BadId)
            } else if len as int > old(self).spec_buf_len() {
                Err::<(), CheckoutError>(CheckoutError::TooLong)
            } else if old(self).checked_out(bid as int) {
                Err::<(), CheckoutError>(CheckoutError::AlreadyOut)
            } else {
                Ok::<(), CheckoutError>(())
            }),
            r is Ok ==> final(self).checked_out(bid as int),
            forall|j: int| j != bid as int ==> final(self).checked_out(j) == old(self).checked_out(j),
            r is Err ==> final(self).checked_out(bid as int) == old(self).checked_out(bid as int),
    {
        if (bid as usize) >= self.out.len() {
            Err(CheckoutError::BadId)
        } else if len > self.buf_len {
            Err(CheckoutError::TooLong)
        } else if self.out[bid as usize] {
            Err(CheckoutError::AlreadyOut)
        } else {
            self.out.set(bid as usize, true);
            Ok(())
        }
    }

    /// Release the buffer under `bid`: the slot returns to the ring and a
    /// later checkout of the same id succeeds again. No other slot changes.
    pub fn release(&mut self, bid: u16)
        ensures
            final(self).spec_entries() == old(self).spec_entries(),
            final(self).spec_buf_len() == old(self).spec_buf_len(),
            !final(self).checked_out(bid as int),
            forall|j: int| j != bid as int ==> final(self).checked_out(j) == old(self).checked_out(j),
    {
        if (bid as usize) < self.out.len() {
            self.out.set(bid as usize, false);
        }
    }
}

} // verus!
