//! Normalization of raw completion-queue entries into plain values.

use vstd::prelude::*;

verus! {

/// Completion flag bit set on the non-terminal entries of a multi-shot op.
pub const CQE_FLAG_MORE: u32 = 2;

/// Completion flag bit set when the kernel picked a provided buffer.
pub const CQE_FLAG_BUFFER: u32 = 1;

/// Number of low flag bits to shift away to read the chosen buffer id.
pub const CQE_BUFFER_SHIFT: u32 = 16;

/// A normalized completion entry: a result (count on success, errno on
/// failure) together with the raw completion flags.
#[derive(Clone, Copy, Debug, PartialEq, Eq)]
pub struct CqeResult {
    pub result: Result<u32, u32>,
    pub flags: u32,
}

/// Whether the flags mark a non-terminal entry of a multi-shot op.
pub open spec fn spec_more(flags: u32) -> bool {
    flags & CQE_FLAG_MORE != 0
}

/// Exec test of [`spec_more`].
pub fn more(flags: u32) -> (r: bool)
    ensures
        r == spec_more(flags),
{
    flags & CQE_FLAG_MORE != 0
}

/// The buffer id the kernel reports in the completion flags, if any.
pub open spec fn spec_buffer_select(flags: u32) -> Option<u16> {
    if flags & CQE_FLAG_BUFFER != 0 {
        Some((flags >> CQE_BUFFER_SHIFT) as u16)
    } else {
        None
    }
}

/// Exec computation of [`spec_buffer_select`].
pub fn buffer_select(flags: u32) -> (r: Option<u16>)
    ensures
        r == spec_buffer_select(flags),
{
    if flags & CQE_FLAG_BUFFER != 0 {
        proof {
            assert(flags >> CQE_BUFFER_SHIFT <= 0xffff) by (bit_vector);
        }
        Some((flags >> CQE_BUFFER_SHIFT) as u16)
    } else {
        None
    }
}

/// What a raw entry with result code `res` and flags `flags` normalizes to:
/// a non-negative result is a success count, a negative one carries the
/// operating-system error number.
pub open spec fn spec_cqe_result(res: i32, flags: u32) -> CqeResult {
    CqeResult {
        result: if res >= 0 {
            Ok(res as u32)
        } else {
            Err((-(res as int)) as u32)
        },
        flags,
    }
}

/// Normalize one raw completion entry.
pub fn cqe_result(res: i32, flags: u32) -> (r: CqeResult)
    ensures
        r == spec_cqe_result(res, flags),
{
    if res >= 0 {
        CqeResult { result: Ok(res as u32), flags }
    } else {
        let wide: i64 = -(res as i64);
        CqeResult { result: Err(wide as u32), flags }
    }
}

} // verus!
