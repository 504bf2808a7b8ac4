//! The creature record that the inventory stores.

use vstd::prelude::*;

verus! {

/// A creature, identified by the stable identifier assigned by the external
/// catalog. Immutable once created; the value itself moves between containers,
/// so at any instant it is physically present in exactly one of them.
#[allow(non_snake_case)]
#[derive(Debug)]
pub struct Pokemon {
    pub pokeAPI_id: u32,
    pub name: String,
    pub height: u32,
    pub weight: u32,
    pub base_happiness: u32,
}

impl Pokemon {
    /// The stable external identifier of this creature.
    pub fn id(&self) -> (r: u32)
        ensures
            r == self.pokeAPI_id,
    {
        self.pokeAPI_id
    }
}

impl Clone for Pokemon {
    fn clone(&self) -> (r: Self)
        ensures
            r == *self,
    {
        Pokemon {
            pokeAPI_id: self.pokeAPI_id,
            name: self.name.clone(),
            height: self.height,
            weight: self.weight,
            base_happiness: self.base_happiness,
        }
    }
}

} // verus!
