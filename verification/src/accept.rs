//! The accept op: a marker payload, since the kernel returns the new file
//! descriptor directly in the completion result.

use vstd::prelude::*;

verus! {

/// Payload of an accept op. It owns nothing: the accepted descriptor
/// arrives as the completion's success count.
pub struct Accept;

} // verus!
