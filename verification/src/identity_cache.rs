//! Bounded memo of content identities.

use std::hash::BuildHasher;

use vstd::prelude::*;

use crate::digest::{identity, identity_of};
use crate::text::same_bytes;

verus! {

/// Calls `foldhash::fast::FixedState::hash_one` with a fixed seed. Nothing is
/// claimed of the result: it only picks a slot.
#[verifier::external_body]
fn identity_hash(bytes: &[u8]) -> (hash: u64) {
    foldhash::fast::FixedState::with_seed(0x5348_4152_4443_4f52).hash_one(bytes)
}

/// Identity of one remembered encoding.
#[derive(Debug)]
struct CachedIdentity {
    hash: u64,
    encoding: Vec<u8>,
    id: u128,
}

/// Direct-mapped memo from canonical encodings to their identities.
#[derive(Debug)]
pub struct IdentityCache {
    slots: Vec<Option<CachedIdentity>>,
}

impl IdentityCache {
    /// What the memo remembers is right.
    pub closed spec fn faithful(&self) -> bool {
        &&& self.slots@.len() > 0
        &&& forall|i: int|
            0 <= i < self.slots@.len() ==> (#[trigger] self.slots@[i] matches Some(cached)
                ==> cached.id == identity_of(cached.encoding@))
    }

    /// Creates an empty memo.
    pub fn new(slots: usize) -> (cache: Self)
        requires
            slots > 0,
        ensures
            cache.faithful(),
    {
        let mut empty: Vec<Option<CachedIdentity>> = Vec::new();
        let mut index: usize = 0;
        while index < slots
            invariant
                index <= slots,
                empty@.len() == index,
                forall|i: int| 0 <= i < index ==> #[trigger] empty@[i] is None,
            decreases slots - index,
        {
            empty.push(None);
            index = index + 1;
        }
        Self { slots: empty }
    }

    /// Identity of an encoding, computed at most once while it is remembered.
    pub fn id(&mut self, encoding: Vec<u8>) -> (id: u128)
        requires
            old(self).faithful(),
        ensures
            id == identity_of(encoding@),
            final(self).faithful(),
    {
        let hash = identity_hash(&encoding);
        let slot = (hash % self.slots.len() as u64) as usize;
        if let Some(cached) = &self.slots[slot] {
            if cached.hash == hash && same_bytes(&cached.encoding, &encoding) {
                return cached.id;
            }
        }
        let id = identity(&encoding);
        self.slots.set(slot, Some(CachedIdentity { hash, encoding, id }));
        id
    }
}

} // verus!
