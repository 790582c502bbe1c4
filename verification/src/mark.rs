//! The mark by which a relay knows its own packets.

use vstd::prelude::*;

verus! {

/// What an id is added to.
pub const TTL_ID_OFFSET: u8 = 64;

/// The lowest id that a relay may have.
pub const MIN_ID: u8 = 1;

/// The highest id that a relay may have.
pub const MAX_ID: u8 = 99;

/// The time to live of every packet that the relay with this id sends.
pub open spec fn mark_of(id: u8) -> int {
    id + TTL_ID_OFFSET
}

/// The mark of the relay with this id.
pub fn ttl_mark(id: u8) -> (r: u8)
    requires
        MIN_ID <= id <= MAX_ID,
    ensures
        r == mark_of(id),
{
    id + TTL_ID_OFFSET
}

/// The mark of a relay is 64 above its id, so that it fits into a byte, and one
/// can tell the id from it.
pub proof fn law_marks(id: u8)
    ensures
        mark_of(id) - id == 64,
        MIN_ID == 1 && MAX_ID == 99,
        MIN_ID <= id <= MAX_ID ==> 65 <= mark_of(id) <= 163,
{
}

} // verus!
