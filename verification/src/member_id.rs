//! Member identifiers.
use vstd::prelude::*;

verus! {

/// The identifier of a member (node) of the Paxos group: the 128 bits of its UUID.
pub type MemberId = u128;

/// Draws a fresh random identifier through `uuid::Uuid::new_v4()`.
///
/// The value is random: nothing is stated of it.
#[verifier::external_body]
pub(crate) fn new_member_id() -> (r: MemberId) {
    uuid::Uuid::new_v4().as_u128()
}

} // verus!
