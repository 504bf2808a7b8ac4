//! The shapes of the two catalog records that describe a creature, and the
//! rule that combines them into one `Pokemon` value. Fetching the records from
//! the remote catalog is the surrounding service's job; this module only
//! states how a fetched pair turns into a creature.

use vstd::prelude::*;

use crate::pokemon::Pokemon;

verus! {

/// The attributes returned by the catalog's creature endpoint.
pub struct PokemonFromApi {
    pub id: u32,
    pub name: String,
    pub height: u32,
    pub weight: u32,
    pub base_happiness: u32,
}

/// The attributes returned by the catalog's species endpoint.
pub struct PokemonSepeciesFromApi {
    pub id: u32,
    pub base_happiness: u32,
}

/// Combines the two catalog records for one identifier into the creature
/// value the inventory stores: the bodily attributes come from the creature
/// record, the happiness from the species record.
pub fn get_pokemon(pokemon: PokemonFromApi, species: PokemonSepeciesFromApi) -> (r: Pokemon)
    ensures
        r.pokeAPI_id == pokemon.id,
        r.name == pokemon.name,
        r.height == pokemon.height,
        r.weight == pokemon.weight,
        r.base_happiness == species.base_happiness,
{
    Pokemon {
        pokeAPI_id: pokemon.id,
        name: pokemon.name,
        height: pokemon.height,
        weight: pokemon.weight,
        base_happiness: species.base_happiness,
    }
}

} // verus!
