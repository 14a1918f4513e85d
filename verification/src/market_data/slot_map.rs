//! A hash map from option keys to positions in the option book.

use vstd::prelude::*;

verus! {

/// Identifies an option by numbers: product, strike, expiry year, month and
/// day, and right.
pub type OptionKey = (u64, i64, i32, u32, u32, u64);

/// A `hashbrown::HashMap` from option keys to positions.
#[verifier::external_body]
pub struct SlotMap {
    map: hashbrown::HashMap<OptionKey, u64>,
}

/// What a map holds.
pub uninterp spec fn slots(m: SlotMap) -> Map<OptionKey, u64>;

/// The map that holds nothing.
pub open spec fn no_slots() -> Map<OptionKey, u64> {
    Map::empty()
}

impl SlotMap {
    /// `hashbrown::HashMap::new`: an empty map.
    #[verifier::external_body]
    pub(crate) fn new() -> (r: SlotMap)
        ensures
            slots(r) == no_slots(),
    {
        SlotMap { map: hashbrown::HashMap::new() }
    }

    /// `hashbrown::HashMap::get`: what a key maps to.
    #[verifier::external_body]
    pub(crate) fn get(&self, key: &OptionKey) -> (r: Option<u64>)
        ensures
            r == (if slots(*self).contains_key(*key) {
                Some(slots(*self)[*key])
            } else {
                None
            }),
    {
        self.map.get(key).copied()
    }

    /// `hashbrown::HashMap::insert`: maps a key to a position, in place of
    /// what it mapped to.
    #[verifier::external_body]
    pub(crate) fn insert(&mut self, key: OptionKey, slot: u64)
        ensures
            slots(*final(self)) == slots(*old(self)).insert(key, slot),
    {
        self.map.insert(key, slot);
    }
}

} // verus!
