//! An in-memory inventory of uniquely identified creatures, spread over one
//! fixed-capacity party and a growable sequence of fixed-capacity storage
//! boxes. A location index maps each creature's identifier to the container
//! that currently holds it; the placement and move operations keep the index
//! and the physical membership consistent and never exceed a container's
//! capacity.

pub mod pokemon;
pub mod pokemon_api;
pub mod storage;
