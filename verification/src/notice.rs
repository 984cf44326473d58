//! What a book asks its host to announce.

use crate::address::Address;
use vstd::prelude::*;

verus! {

/// The data that goes with an announcement.
#[derive(Debug)]
pub enum Payload {
    /// A record and the principal on whose behalf it was touched.
    Party { id: u32, who: Address },
    /// A schedule and the number of occurrences it missed.
    Count { id: u32, count: u32 },
    /// A schedule alone.
    Id { id: u32 },
}

impl Clone for Payload {
    fn clone(&self) -> (r: Payload)
        ensures
            r == *self,
    {
        match self {
            Payload::Party { id, who } => Payload::Party { id: *id, who: who.clone() },
            Payload::Count { id, count } => Payload::Count { id: *id, count: *count },
            Payload::Id { id } => Payload::Id { id: *id },
        }
    }
}

/// An announcement: what happened, of the kind `K`, and to what.
#[derive(Debug)]
pub struct Notice<K> {
    pub kind: K,
    pub payload: Payload,
}

} // verus!
