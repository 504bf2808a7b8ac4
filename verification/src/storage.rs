//! The inventory core: fixed-capacity containers, the growable set of storage
//! boxes around the single party, and the location index that records which
//! container currently holds each creature.

use std::collections::HashMap;

use vstd::prelude::*;

use crate::pokemon::Pokemon;

verus! {

broadcast use vstd::std_specs::hash::group_hash_axioms;

/// Number of creatures the party can hold.
pub const DEFAULT_MAX_PARTY_SIZE: usize = 6;

/// Number of creatures each storage box can hold.
pub const DEFAULT_MAX_BOX_SIZE: usize = 30;

/// Selects a destination container: the party, or the storage box with the
/// given handle.
#[derive(Clone, Copy, PartialEq, Eq, Structural, Debug)]
pub enum StorageDestination {
    Party,
    Box(usize),
}

/// How a storage operation can fail. Every failure is surfaced to the caller;
/// no operation panics or recovers silently.
#[derive(Clone, Copy, PartialEq, Eq, Structural, Debug)]
pub enum StorageError {
    /// The destination container is at capacity.
    ContainerIsFull,
    /// The given box handle is out of range.
    BoxDoesNotExist,
    /// The identifier is not currently in the location index.
    PokemonNotFound,
}

/// A fixed-capacity, order-independent collection of creatures keyed by
/// identifier. Insertion fails rather than growing past the capacity.
#[verifier::ext_equal]
pub struct Container {
    pokemon: Vec<Pokemon>,
    max_size: usize,
}

/// Relates a container before and after a successful insertion of `p`: the
/// entry for `p`'s identifier is added or overwritten, every other member is
/// untouched, and the capacity does not change.
pub open spec fn container_inserted(pre: Container, post: Container, p: Pokemon) -> bool {
    &&& post.capacity() == pre.capacity()
    &&& post.contains_id(p.pokeAPI_id)
    &&& post.item_of(p.pokeAPI_id) == p
    &&& forall|id: u32|
        id != p.pokeAPI_id ==> (#[trigger] post.contains_id(id) <==> pre.contains_id(id))
    &&& forall|id: u32|
        id != p.pokeAPI_id && pre.contains_id(id) ==> #[trigger] post.item_of(id) == pre.item_of(
            id,
        )
    &&& post.members().len() == if pre.contains_id(p.pokeAPI_id) {
        pre.members().len()
    } else {
        pre.members().len() + 1
    }
}

/// Relates a container before and after a successful removal of the creature
/// with identifier `id`: that entry is gone, every other member is untouched,
/// and the capacity does not change.
pub open spec fn container_removed(pre: Container, post: Container, id: u32) -> bool {
    &&& post.capacity() == pre.capacity()
    &&& !post.contains_id(id)
    &&& forall|x: u32| x != id ==> (#[trigger] post.contains_id(x) <==> pre.contains_id(x))
    &&& forall|x: u32|
        x != id && pre.contains_id(x) ==> #[trigger] post.item_of(x) == pre.item_of(x)
    &&& post.members().len() == pre.members().len() - 1
}

impl Container {
    /// The creatures currently held, in an unspecified order.
    pub closed spec fn members(self) -> Seq<Pokemon> {
        self.pokemon@
    }

    /// The fixed capacity this container was created with.
    pub closed spec fn capacity(self) -> nat {
        self.max_size as nat
    }

    /// Whether some held creature carries the given identifier.
    pub open spec fn contains_id(self, id: u32) -> bool {
        exists|i: int|
            0 <= i < self.members().len() && (#[trigger] self.members()[i]).pokeAPI_id == id
    }

    /// The creature filed under the given identifier (meaningful only when
    /// `contains_id` holds and identifiers are unique).
    pub open spec fn item_of(self, id: u32) -> Pokemon {
        self.members()[choose|i: int|
            0 <= i < self.members().len() && (#[trigger] self.members()[i]).pokeAPI_id == id]
    }

    /// Well-formed: identifiers are unique and the member count respects the
    /// capacity.
    pub open spec fn wf(self) -> bool {
        &&& forall|i: int, j: int|
            0 <= i < self.members().len() && 0 <= j < self.members().len() && i != j ==> (
            #[trigger] self.members()[i]).pokeAPI_id != (#[trigger] self.members()[j]).pokeAPI_id
        &&& self.members().len() <= self.capacity()
    }

    /// An empty container that will hold at most `max_size` creatures.
    pub fn new(max_size: usize) -> (r: Self)
        ensures
            r.wf(),
            r.members().len() == 0,
            r.capacity() == max_size,
    {
        Container { pokemon: Vec::new(), max_size }
    }

    /// Position of the creature with the given identifier, if any.
    fn find_index(&self, id: u32) -> (r: Option<usize>)
        ensures
            match r {
                Some(i) => i < self.members().len() && self.members()[i as int].pokeAPI_id == id,
                None => !self.contains_id(id),
            },
    {
        let mut i: usize = 0;
        while i < self.pokemon.len()
            invariant
                i <= self.pokemon.len(),
                forall|j: int| 0 <= j < i ==> (#[trigger] self.pokemon@[j]).pokeAPI_id != id,
            decreases self.pokemon.len() - i,
        {
            if self.pokemon[i].id() == id {
                return Some(i);
            }
            i = i + 1;
        }
        None
    }

    /// Inserts a creature, overwriting any member that already carries the
    /// same identifier. Fails with `ContainerIsFull` exactly when the
    /// container is at capacity; a failed insertion changes nothing.
    pub fn push(&mut self, pokemon: Pokemon) -> (r: Result<(), StorageError>)
        requires
            old(self).wf(),
        ensures
            final(self).wf(),
            r is Err <==> old(self).members().len() >= old(self).capacity(),
            r is Err ==> r == Err::<(), StorageError>(StorageError::ContainerIsFull)
                && *final(self) == *old(self),
            r is Ok ==> container_inserted(*old(self), *final(self), pokemon),
    {
        if !self.has_space() {
            Err(StorageError::ContainerIsFull)
        } else {
            let id = pokemon.id();
            match self.find_index(id) {
                Some(i) => {
                    let ghost pre = *self;
                    self.pokemon[i] = pokemon;
                    proof {
                        lemma_members_updated(pre, *self, i as int, pokemon);
                    }
                },
                None => {
                    let ghost pre = *self;
                    self.pokemon.push(pokemon);
                    proof {
                        lemma_members_pushed(pre, *self, pokemon);
                    }
                },
            }
            Ok(())
        }
    }

    /// Detaches and returns the creature with the given identifier. Fails with
    /// `PokemonNotFound` exactly when no member carries it; a failed removal
    /// changes nothing.
    pub fn remove(&mut self, id: u32) -> (r: Result<Pokemon, StorageError>)
        requires
            old(self).wf(),
        ensures
            final(self).wf(),
            final(self).capacity() == old(self).capacity(),
            r is Ok <==> old(self).contains_id(id),
            r is Err ==> r == Err::<Pokemon, StorageError>(StorageError::PokemonNotFound)
                && *final(self) == *old(self),
            r is Ok ==> container_removed(*old(self), *final(self), id)
                && r->Ok_0 == old(self).item_of(id),
    {
        match self.find_index(id) {
            Some(i) => {
                let ghost pre = *self;
                let p = self.pokemon.remove(i);
                proof {
                    lemma_members_removed(pre, *self, i as int, id);
                }
                Ok(p)
            },
            None => Err(StorageError::PokemonNotFound),
        }
    }

    /// Whether the container can take one more creature.
    pub fn has_space(&self) -> (r: bool)
        ensures
            r == (self.members().len() < self.capacity()),
    {
        self.pokemon.len() < self.max_size
    }

    /// All current members, in an unspecified order.
    pub fn get_pokemon(&self) -> (r: Vec<Pokemon>)
        ensures
            r@ == self.members(),
    {
        let mut out: Vec<Pokemon> = Vec::new();
        let mut i: usize = 0;
        while i < self.pokemon.len()
            invariant
                i <= self.pokemon.len(),
                out@ =~= self.pokemon@.subrange(0, i as int),
            decreases self.pokemon.len() - i,
        {
            out.push(self.pokemon[i].clone());
            i = i + 1;
        }
        proof {
            assert(out@ =~= self.pokemon@);
        }
        out
    }
}

/// After overwriting position `i` (which carried `p`'s identifier) in a
/// well-formed container, the membership relates to the old one as
/// `container_inserted` says.
proof fn lemma_members_updated(pre: Container, post: Container, i: int, p: Pokemon)
    requires
        pre.wf(),
        0 <= i < pre.members().len(),
        pre.members()[i].pokeAPI_id == p.pokeAPI_id,
        post.members() == pre.members().update(i, p),
        post.capacity() == pre.capacity(),
    ensures
        post.wf(),
        container_inserted(pre, post, p),
{
    assert(post.members()[i] == p);
    assert(post.contains_id(p.pokeAPI_id));
    assert(pre.contains_id(p.pokeAPI_id));
    assert forall|id: u32| id != p.pokeAPI_id implies (post.contains_id(id) <==> pre.contains_id(
        id,
    )) by {
        if post.contains_id(id) {
            let j = choose|j: int|
                0 <= j < post.members().len() && (#[trigger] post.members()[j]).pokeAPI_id == id;
            assert(j != i);
            assert(pre.members()[j].pokeAPI_id == id);
        }
        if pre.contains_id(id) {
            let j = choose|j: int|
                0 <= j < pre.members().len() && (#[trigger] pre.members()[j]).pokeAPI_id == id;
            assert(j != i);
            assert(post.members()[j].pokeAPI_id == id);
        }
    }
    assert forall|id: u32| id != p.pokeAPI_id && pre.contains_id(id) implies post.item_of(id)
        == pre.item_of(id) by {
        let j0 = choose|j: int|
            0 <= j < pre.members().len() && (#[trigger] pre.members()[j]).pokeAPI_id == id;
        assert(post.members()[j0].pokeAPI_id == id);
        assert(post.contains_id(id));
        let j1 = choose|j: int|
            0 <= j < post.members().len() && (#[trigger] post.members()[j]).pokeAPI_id == id;
        assert(j1 != i);
        assert(pre.members()[j1].pokeAPI_id == id);
        assert(j1 == j0);
    }
    assert(post.item_of(p.pokeAPI_id) == p) by {
        let j = choose|j: int|
            0 <= j < post.members().len() && (#[trigger] post.members()[j]).pokeAPI_id
                == p.pokeAPI_id;
        if j != i {
            assert(pre.members()[j].pokeAPI_id == p.pokeAPI_id);
            assert(false);
        }
    }
}

/// After appending `p` (whose identifier is fresh) to a well-formed container
/// with room, the membership relates to the old one as `container_inserted`
/// says.
proof fn lemma_members_pushed(pre: Container, post: Container, p: Pokemon)
    requires
        pre.wf(),
        !pre.contains_id(p.pokeAPI_id),
        pre.members().len() < pre.capacity(),
        post.members() == pre.members().push(p),
        post.capacity() == pre.capacity(),
    ensures
        post.wf(),
        container_inserted(pre, post, p),
{
    let n = pre.members().len() as int;
    assert(post.members()[n] == p);
    assert(post.contains_id(p.pokeAPI_id));
    assert forall|i: int, j: int|
        0 <= i < post.members().len() && 0 <= j < post.members().len() && i != j implies (
    #[trigger] post.members()[i]).pokeAPI_id != (#[trigger] post.members()[j]).pokeAPI_id by {
        if i < n && j < n {
            assert(pre.members()[i].pokeAPI_id != pre.members()[j].pokeAPI_id);
        } else if i == n {
            assert(pre.members()[j].pokeAPI_id != p.pokeAPI_id);
        } else {
            assert(pre.members()[i].pokeAPI_id != p.pokeAPI_id);
        }
    }
    assert forall|id: u32| id != p.pokeAPI_id implies (post.contains_id(id) <==> pre.contains_id(
        id,
    )) by {
        if post.contains_id(id) {
            let j = choose|j: int|
                0 <= j < post.members().len() && (#[trigger] post.members()[j]).pokeAPI_id == id;
            assert(j != n);
            assert(pre.members()[j].pokeAPI_id == id);
        }
        if pre.contains_id(id) {
            let j = choose|j: int|
                0 <= j < pre.members().len() && (#[trigger] pre.members()[j]).pokeAPI_id == id;
            assert(post.members()[j].pokeAPI_id == id);
        }
    }
    assert forall|id: u32| id != p.pokeAPI_id && pre.contains_id(id) implies post.item_of(id)
        == pre.item_of(id) by {
        let j0 = choose|j: int|
            0 <= j < pre.members().len() && (#[trigger] pre.members()[j]).pokeAPI_id == id;
        assert(post.members()[j0].pokeAPI_id == id);
        let j1 = choose|j: int|
            0 <= j < post.members().len() && (#[trigger] post.members()[j]).pokeAPI_id == id;
        assert(j1 != n);
        assert(pre.members()[j1].pokeAPI_id == id);
        assert(j1 == j0);
    }
    assert(post.item_of(p.pokeAPI_id) == p) by {
        let j = choose|j: int|
            0 <= j < post.members().len() && (#[trigger] post.members()[j]).pokeAPI_id
                == p.pokeAPI_id;
        if j != n {
            assert(pre.members()[j].pokeAPI_id == p.pokeAPI_id);
            assert(false);
        }
    }
}

/// After removing position `i` (which carried `id`) from a well-formed
/// container, the membership relates to the old one as `container_removed`
/// says.
proof fn lemma_members_removed(pre: Container, post: Container, i: int, id: u32)
    requires
        pre.wf(),
        0 <= i < pre.members().len(),
        pre.members()[i].pokeAPI_id == id,
        post.members() == pre.members().remove(i),
        post.capacity() == pre.capacity(),
    ensures
        post.wf(),
        container_removed(pre, post, id),
        pre.item_of(id) == pre.members()[i],
{
    let n = pre.members().len() as int;
    assert forall|a: int, b: int|
        0 <= a < post.members().len() && 0 <= b < post.members().len() && a != b implies (
    #[trigger] post.members()[a]).pokeAPI_id != (#[trigger] post.members()[b]).pokeAPI_id by {
        let a0: int = if a < i {
            a
        } else {
            a + 1
        };
        let b0: int = if b < i {
            b
        } else {
            b + 1
        };
        assert(post.members()[a] == pre.members()[a0]);
        assert(post.members()[b] == pre.members()[b0]);
        assert(pre.members()[a0].pokeAPI_id != pre.members()[b0].pokeAPI_id);
    }
    assert(!post.contains_id(id)) by {
        if post.contains_id(id) {
            let j = choose|j: int|
                0 <= j < post.members().len() && (#[trigger] post.members()[j]).pokeAPI_id == id;
            let j0: int = if j < i {
                j
            } else {
                j + 1
            };
            assert(post.members()[j] == pre.members()[j0]);
            assert(j0 != i);
            assert(pre.members()[j0].pokeAPI_id != pre.members()[i].pokeAPI_id);
            assert(false);
        }
    }
    assert forall|x: u32| x != id implies (post.contains_id(x) <==> pre.contains_id(x)) by {
        if post.contains_id(x) {
            let j = choose|j: int|
                0 <= j < post.members().len() && (#[trigger] post.members()[j]).pokeAPI_id == x;
            let j0: int = if j < i {
                j
            } else {
                j + 1
            };
            assert(post.members()[j] == pre.members()[j0]);
            assert(pre.members()[j0].pokeAPI_id == x);
        }
        if pre.contains_id(x) {
            let j0 = choose|j: int|
                0 <= j < pre.members().len() && (#[trigger] pre.members()[j]).pokeAPI_id == x;
            assert(j0 != i);
            let j: int = if j0 < i {
                j0
            } else {
                j0 - 1
            };
            assert(post.members()[j] == pre.members()[j0]);
            assert(post.members()[j].pokeAPI_id == x);
        }
    }
    assert forall|x: u32| x != id && pre.contains_id(x) implies post.item_of(x) == pre.item_of(
        x,
    ) by {
        let j0 = choose|j: int|
            0 <= j < pre.members().len() && (#[trigger] pre.members()[j]).pokeAPI_id == x;
        assert(j0 != i);
        let jw: int = if j0 < i {
            j0
        } else {
            j0 - 1
        };
        assert(post.members()[jw] == pre.members()[j0]);
        assert(post.members()[jw].pokeAPI_id == x);
        assert(post.contains_id(x));
        let j1 = choose|j: int|
            0 <= j < post.members().len() && (#[trigger] post.members()[j]).pokeAPI_id == x;
        let j1o: int = if j1 < i {
            j1
        } else {
            j1 + 1
        };
        assert(post.members()[j1] == pre.members()[j1o]);
        assert(pre.members()[j1o].pokeAPI_id == x);
        assert(j1o == j0);
    }
    assert(pre.item_of(id) == pre.members()[i]) by {
        let j = choose|j: int|
            0 <= j < pre.members().len() && (#[trigger] pre.members()[j]).pokeAPI_id == id;
        if j != i {
            assert(pre.members()[j].pokeAPI_id != pre.members()[i].pokeAPI_id);
            assert(false);
        }
    }
}

/// Where an indexed creature currently lives: the party, or the storage box
/// with the given handle.
#[derive(Clone, Copy, PartialEq, Eq, Structural, Debug)]
pub enum ContainerLocation {
    Party,
    Box(usize),
}

/// The location a destination selector names.
pub open spec fn dest_location(destination: StorageDestination) -> ContainerLocation {
    match destination {
        StorageDestination::Party => ContainerLocation::Party,
        StorageDestination::Box(i) => ContainerLocation::Box(i),
    }
}

/// The inventory aggregate: one fixed-capacity party, an append-only sequence
/// of storage boxes whose positions serve as stable handles, and the location
/// index from creature identifier to the container that holds it.
#[verifier::ext_equal]
pub struct Storage {
    party: Container,
    boxes: Vec<Container>,
    max_party_size: usize,
    max_box_size: usize,
    pokemon_locations: HashMap<u32, ContainerLocation>,
}

/// The configured capacities do not change across an operation.
pub open spec fn same_config(pre: Storage, post: Storage) -> bool {
    &&& post.spec_max_party_size() == pre.spec_max_party_size()
    &&& post.spec_max_box_size() == pre.spec_max_box_size()
}

impl Storage {
    /// The party container.
    pub closed spec fn spec_party(self) -> Container {
        self.party
    }

    /// The storage boxes, in creation order; a box's position is its handle.
    pub closed spec fn spec_boxes(self) -> Seq<Container> {
        self.boxes@
    }

    /// The location index.
    pub closed spec fn locations(self) -> Map<u32, ContainerLocation> {
        self.pokemon_locations@
    }

    /// The capacity the party was created with.
    pub closed spec fn spec_max_party_size(self) -> nat {
        self.max_party_size as nat
    }

    /// The capacity every storage box is created with.
    pub closed spec fn spec_max_box_size(self) -> nat {
        self.max_box_size as nat
    }

    /// Whether the location index has an entry for the identifier.
    pub open spec fn indexed(self, id: u32) -> bool {
        self.locations().contains_key(id)
    }

    /// The container the location index records for the identifier.
    pub open spec fn location_of(self, id: u32) -> ContainerLocation {
        self.locations()[id]
    }

    /// Whether a location names an existing container.
    pub open spec fn loc_valid(self, loc: ContainerLocation) -> bool {
        match loc {
            ContainerLocation::Party => true,
            ContainerLocation::Box(i) => i < self.spec_boxes().len(),
        }
    }

    /// The container standing at a (valid) location.
    pub open spec fn container_at(self, loc: ContainerLocation) -> Container {
        match loc {
            ContainerLocation::Party => self.spec_party(),
            ContainerLocation::Box(i) => self.spec_boxes()[i as int],
        }
    }

    /// The creature currently filed under the identifier (meaningful when
    /// `indexed` holds and the inventory is well-formed).
    pub open spec fn item_of(self, id: u32) -> Pokemon {
        self.container_at(self.location_of(id)).item_of(id)
    }

    /// Whether a destination selector names an existing container.
    pub open spec fn dest_valid(self, destination: StorageDestination) -> bool {
        self.loc_valid(dest_location(destination))
    }

    /// The container a destination selector names.
    pub open spec fn dest_container(self, destination: StorageDestination) -> Container {
        self.container_at(dest_location(destination))
    }

    /// Whether the destination container has room for one more creature.
    pub open spec fn dest_has_space(self, destination: StorageDestination) -> bool {
        self.dest_container(destination).members().len() < self.dest_container(
            destination,
        ).capacity()
    }

    /// Every container is well-formed and carries its configured capacity.
    pub open spec fn containers_wf(self) -> bool {
        &&& self.spec_party().wf()
        &&& self.spec_party().capacity() == self.spec_max_party_size()
        &&& forall|i: int|
            0 <= i < self.spec_boxes().len() ==> (#[trigger] self.spec_boxes()[i]).wf()
                && self.spec_boxes()[i].capacity() == self.spec_max_box_size()
    }

    /// The location index and the physical membership agree exactly: an
    /// identifier is in a container if and only if the index files it there,
    /// and every index entry names an existing container.
    pub open spec fn index_consistent(self) -> bool {
        &&& forall|id: u32| #[trigger] self.indexed(id) ==> self.loc_valid(self.location_of(id))
        &&& forall|id: u32|
            #[trigger] self.spec_party().contains_id(id) <==> self.indexed(id) && self.location_of(
                id,
            ) == ContainerLocation::Party
        &&& forall|id: u32, i: usize|
            i < self.spec_boxes().len() ==> ((#[trigger] self.spec_boxes()[i as int].contains_id(
                id,
            )) <==> self.indexed(id) && self.location_of(id) == ContainerLocation::Box(i))
    }

    /// Well-formed inventory: capacity invariant, index-membership
    /// consistency, and no orphans.
    pub open spec fn wf(self) -> bool {
        self.containers_wf() && self.index_consistent()
    }

    /// Appends a new, empty storage box with the configured box capacity and
    /// returns its stable handle. Never fails; handles are never reused.
    pub fn add_box(&mut self) -> (r: Result<usize, ()>)
        requires
            old(self).wf(),
        ensures
            final(self).wf(),
            same_config(*old(self), *final(self)),
            r == Ok::<usize, ()>(old(self).spec_boxes().len() as usize),
            final(self).spec_party() == old(self).spec_party(),
            final(self).locations() == old(self).locations(),
            final(self).spec_boxes().len() == old(self).spec_boxes().len() + 1,
            forall|j: int|
                0 <= j < old(self).spec_boxes().len() ==> final(self).spec_boxes()[j] == old(
                    self,
                ).spec_boxes()[j],
            final(self).spec_boxes()[old(self).spec_boxes().len() as int].members().len() == 0,
            final(self).spec_boxes()[old(self).spec_boxes().len() as int].capacity() == old(
                self,
            ).spec_max_box_size(),
    {
        let ghost pre = *old(self);
        let b = Container::new(self.max_box_size);
        self.boxes.push(b);
        proof {
            let n = pre.spec_boxes().len();
            assert forall|i: int| 0 <= i < self.spec_boxes().len() implies (
            #[trigger] self.spec_boxes()[i]).wf() && self.spec_boxes()[i].capacity()
                == self.spec_max_box_size() by {
                if i < n {
                    assert(self.spec_boxes()[i] == pre.spec_boxes()[i]);
                    assert(pre.spec_boxes()[i].wf());
                } else {
                    assert(self.spec_boxes()[i] == b);
                }
            }
            assert forall|id: u32| #[trigger] self.indexed(id) implies self.loc_valid(
                self.location_of(id),
            ) by {
                assert(pre.indexed(id));
                assert(pre.loc_valid(pre.location_of(id)));
            }
            assert forall|id: u32|
                (#[trigger] self.spec_party().contains_id(id)) <==> self.indexed(id)
                    && self.location_of(id) == ContainerLocation::Party by {
                assert(pre.spec_party().contains_id(id) <==> pre.indexed(id) && pre.location_of(id)
                    == ContainerLocation::Party);
            }
            assert forall|id: u32, i: usize| i < self.spec_boxes().len() implies ((
            #[trigger] self.spec_boxes()[i as int].contains_id(id)) <==> self.indexed(id)
                && self.location_of(id) == ContainerLocation::Box(i)) by {
                if (i as nat) < n {
                    assert(self.spec_boxes()[i as int] == pre.spec_boxes()[i as int]);
                    assert(pre.spec_boxes()[i as int].contains_id(id) <==> pre.indexed(id)
                        && pre.location_of(id) == ContainerLocation::Box(i));
                } else {
                    assert(i == n);
                    assert(!self.spec_boxes()[i as int].contains_id(id));
                    if self.indexed(id) {
                        assert(pre.indexed(id));
                        assert(pre.loc_valid(pre.location_of(id)));
                        match pre.location_of(id) {
                            ContainerLocation::Party => {
                                assert(self.location_of(id) != ContainerLocation::Box(i));
                            },
                            ContainerLocation::Box(j) => {
                                assert((j as nat) < n);
                                assert(self.location_of(id) != ContainerLocation::Box(i));
                            },
                        }
                    }
                }
            }
        }
        Ok(self.boxes.len() - 1)
    }

    /// The contents of the box with the given handle, in an unspecified
    /// order. Fails with `BoxDoesNotExist` exactly when the handle is out of
    /// range.
    pub fn get_box(&self, id: usize) -> (r: Result<Vec<Pokemon>, StorageError>)
        ensures
            r is Ok <==> id < self.spec_boxes().len(),
            r is Err ==> r == Err::<Vec<Pokemon>, StorageError>(StorageError::BoxDoesNotExist),
            r matches Ok(v) ==> v@ == self.spec_boxes()[id as int].members(),
    {
        if id < self.boxes.len() {
            Ok(self.boxes[id].get_pokemon())
        } else {
            Err(StorageError::BoxDoesNotExist)
        }
    }

    /// The contents of the party, in an unspecified order. Never fails.
    pub fn get_party(&self) -> (r: Result<Vec<Pokemon>, StorageError>)
        ensures
            r is Ok,
            r->Ok_0@ == self.spec_party().members(),
    {
        Ok(self.party.get_pokemon())
    }

    /// Places a creature that has no current location. Fails with
    /// `BoxDoesNotExist` when the destination handle is out of range and with
    /// `ContainerIsFull` when the destination container is at capacity; a
    /// failed placement changes nothing. On success the creature is in the
    /// destination container and the index files it there. Well-formedness is
    /// kept whenever the creature was not already filed in some other
    /// container (placing a creature that is filed elsewhere overwrites the
    /// index entry but leaves the stale copy behind).
    pub fn add_pokemon(&mut self, pokemon: Pokemon, destination: StorageDestination) -> (r: Result<
        (),
        StorageError,
    >)
        requires
            old(self).wf(),
        ensures
            r == Err::<(), StorageError>(StorageError::BoxDoesNotExist) <==> !old(self).dest_valid(
                destination,
            ),
            r == Err::<(), StorageError>(StorageError::ContainerIsFull) <==> old(self).dest_valid(
                destination,
            ) && !old(self).dest_has_space(destination),
            r is Ok <==> old(self).dest_valid(destination) && old(self).dest_has_space(
                destination,
            ),
            r is Err ==> same_state(*old(self), *final(self)) && final(self).wf(),
            r is Ok ==> place_effect(*old(self), *final(self), pokemon, destination),
            r is Ok && (!old(self).indexed(pokemon.pokeAPI_id) || old(self).location_of(
                pokemon.pokeAPI_id,
            ) == dest_location(destination)) ==> final(self).wf(),
    {
        match destination {
            StorageDestination::Party => {
                let id = pokemon.id();
                match self.party.push(pokemon) {
                    Ok(u) => {
                        self.pokemon_locations.insert(id, ContainerLocation::Party);
                        proof {
                            let s0 = *old(self);
                            assert(self.spec_boxes() == s0.spec_boxes());
                            assert forall|j: int| 0 <= j < self.spec_boxes().len() implies (
                            #[trigger] self.spec_boxes()[j]).wf() && self.spec_boxes()[j].capacity()
                                == self.spec_max_box_size() by {
                                assert(self.spec_boxes()[j] == s0.spec_boxes()[j]);
                                assert(s0.spec_boxes()[j].wf());
                            }
                            assert(place_effect(s0, *self, pokemon, destination));
                            if !s0.indexed(id) || s0.location_of(id) == ContainerLocation::Party {
                                lemma_place_preserves_wf(s0, *self, pokemon, destination);
                            }
                        }
                        Ok(())
                    },
                    Err(e) => {
                        proof {
                            lemma_same_state_wf(*old(self), *self);
                        }
                        Err(e)
                    },
                }
            },
            StorageDestination::Box(i) => {
                if i < self.boxes.len() {
                    let id = pokemon.id();
                    proof {
                        assert(old(self).spec_boxes()[i as int].wf());
                    }
                    match self.boxes[i].push(pokemon) {
                        Ok(u) => {
                            self.pokemon_locations.insert(id, ContainerLocation::Box(i));
                            proof {
                                let s0 = *old(self);
                                assert(self.spec_party() == s0.spec_party());
                                assert(self.spec_boxes().len() == s0.spec_boxes().len());
                                assert(container_inserted(
                                    s0.spec_boxes()[i as int],
                                    self.spec_boxes()[i as int],
                                    pokemon,
                                ));
                                assert forall|j: int| 0 <= j < self.spec_boxes().len() implies (
                                #[trigger] self.spec_boxes()[j]).wf()
                                    && self.spec_boxes()[j].capacity()
                                    == self.spec_max_box_size() by {
                                    if j != i {
                                        assert(self.spec_boxes()[j] == s0.spec_boxes()[j]);
                                        assert(s0.spec_boxes()[j].wf());
                                    }
                                }
                                assert(place_effect(s0, *self, pokemon, destination));
                                if !s0.indexed(id) || s0.location_of(id) == ContainerLocation::Box(
                                    i,
                                ) {
                                    lemma_place_preserves_wf(s0, *self, pokemon, destination);
                                }
                            }
                            Ok(())
                        },
                        Err(e) => {
                            proof {
                                assert(self.spec_boxes() =~= old(self).spec_boxes());
                                lemma_same_state_wf(*old(self), *self);
                            }
                            Err(e)
                        },
                    }
                } else {
                    Err(StorageError::BoxDoesNotExist)
                }
            },
        }
    }

    /// Relocates an already-indexed creature to the destination as one atomic
    /// step: resolve the destination, check its capacity, look the source up
    /// in the index, detach, insert, refile. The capacity check precedes the
    /// removal, so a failed move never leaves the creature detached from its
    /// source. Returns a copy of the relocated creature.
    pub fn move_pokemon(&mut self, pokemon_id: u32, destination: StorageDestination) -> (r: Result<
        Pokemon,
        StorageError,
    >)
        requires
            old(self).wf(),
        ensures
            final(self).wf(),
            r == Err::<Pokemon, StorageError>(StorageError::BoxDoesNotExist) <==> !old(
                self,
            ).dest_valid(destination),
            r == Err::<Pokemon, StorageError>(StorageError::ContainerIsFull) <==> old(
                self,
            ).dest_valid(destination) && !old(self).dest_has_space(destination),
            r == Err::<Pokemon, StorageError>(StorageError::PokemonNotFound) <==> old(
                self,
            ).dest_valid(destination) && old(self).dest_has_space(destination) && !old(
                self,
            ).indexed(pokemon_id),
            r is Ok <==> old(self).dest_valid(destination) && old(self).dest_has_space(destination)
                && old(self).indexed(pokemon_id),
            r is Err ==> *final(self) == *old(self),
            r is Ok ==> r->Ok_0 == old(self).item_of(pokemon_id) && move_effect(
                *old(self),
                *final(self),
                pokemon_id,
                destination,
            ),
    {
        // Resolve the destination; an out-of-range handle fails before any
        // state is touched.
        let dst = match destination {
            StorageDestination::Party => ContainerLocation::Party,
            StorageDestination::Box(i) => {
                if i >= self.boxes.len() {
                    return Err(StorageError::BoxDoesNotExist);
                }
                ContainerLocation::Box(i)
            },
        };
        // Capacity check on the destination, before any removal.
        let space = match dst {
            ContainerLocation::Party => self.party.has_space(),
            ContainerLocation::Box(i) => self.boxes[i].has_space(),
        };
        if !space {
            return Err(StorageError::ContainerIsFull);
        }
        // The index is the single source of truth for where the creature is.
        let src = match self.pokemon_locations.get(&pokemon_id) {
            Some(loc) => *loc,
            None => {
                return Err(StorageError::PokemonNotFound);
            },
        };
        proof {
            assert(old(self).indexed(pokemon_id));
            assert(src == old(self).location_of(pokemon_id));
            lemma_indexed_present(*old(self), pokemon_id);
        }
        // Detach from the source container; under well-formedness the creature
        // is present exactly there.
        let removed = match src {
            ContainerLocation::Party => self.party.remove(pokemon_id),
            ContainerLocation::Box(i) => self.boxes[i].remove(pokemon_id),
        };
        let pokemon = match removed {
            Ok(p) => p,
            Err(e) => {
                proof {
                    assert(false);
                }
                return Err(e);
            },
        };
        let result = pokemon.clone();
        // Insert into the destination; its capacity was checked above and a
        // removal only shrinks containers, so this cannot fail.
        let ghost mid = *self;
        let pushed = match dst {
            ContainerLocation::Party => self.party.push(pokemon),
            ContainerLocation::Box(i) => self.boxes[i].push(pokemon),
        };
        match pushed {
            Ok(u) => {},
            Err(e) => {
                proof {
                    assert(false);
                }
                return Err(e);
            },
        }
        let ghost after_push = *self;
        // Refile the creature under the destination.
        self.pokemon_locations.insert(pokemon_id, dst);
        proof {
            let s0 = *old(self);
            if src == dst {
                lemma_remove_insert_within(
                    s0.container_at(src),
                    mid.container_at(src),
                    after_push.container_at(src),
                    pokemon,
                );
            }
            assert(move_effect(s0, *self, pokemon_id, destination));
            lemma_move_preserves_wf(s0, *self, pokemon_id, destination);
        }
        Ok(result)
    }
}

impl Default for Storage {
    /// An empty inventory: a party with the default party capacity, no boxes,
    /// and an empty location index.
    fn default() -> (r: Self)
        ensures
            r.wf(),
            r.spec_party().members().len() == 0,
            r.spec_party().capacity() == DEFAULT_MAX_PARTY_SIZE,
            r.spec_boxes().len() == 0,
            r.locations() == Map::<u32, ContainerLocation>::empty(),
            r.spec_max_party_size() == DEFAULT_MAX_PARTY_SIZE,
            r.spec_max_box_size() == DEFAULT_MAX_BOX_SIZE,
    {
        Storage {
            party: Container::new(DEFAULT_MAX_PARTY_SIZE),
            boxes: Vec::new(),
            max_party_size: DEFAULT_MAX_PARTY_SIZE,
            max_box_size: DEFAULT_MAX_BOX_SIZE,
            pokemon_locations: HashMap::new(),
        }
    }
}

/// The whole observable state of the inventory is unchanged: configuration,
/// party, boxes and location index.
pub open spec fn same_state(pre: Storage, post: Storage) -> bool {
    &&& same_config(pre, post)
    &&& post.spec_party() == pre.spec_party()
    &&& post.spec_boxes() == pre.spec_boxes()
    &&& post.locations() == pre.locations()
}

/// The successful outcome of a placement: the creature is inserted into the
/// chosen destination container, the index files it there, and nothing else
/// changes.
pub open spec fn place_effect(
    pre: Storage,
    post: Storage,
    p: Pokemon,
    destination: StorageDestination,
) -> bool {
    &&& same_config(pre, post)
    &&& post.containers_wf()
    &&& pre.dest_valid(destination)
    &&& post.locations() == pre.locations().insert(p.pokeAPI_id, dest_location(destination))
    &&& post.spec_boxes().len() == pre.spec_boxes().len()
    &&& match destination {
        StorageDestination::Party => {
            &&& container_inserted(pre.spec_party(), post.spec_party(), p)
            &&& post.spec_boxes() == pre.spec_boxes()
        },
        StorageDestination::Box(b) => {
            &&& container_inserted(pre.spec_boxes()[b as int], post.spec_boxes()[b as int], p)
            &&& post.spec_party() == pre.spec_party()
            &&& forall|j: usize|
                j < pre.spec_boxes().len() && j != b ==> #[trigger] post.spec_boxes()[j as int]
                    == pre.spec_boxes()[j as int]
        },
    }
}

/// Relates a container before and after a creature is detached and reinserted
/// within it: membership by identifier, the members themselves and the
/// capacity are all unchanged.
pub open spec fn moved_within(pre: Container, post: Container, id: u32) -> bool {
    &&& post.capacity() == pre.capacity()
    &&& post.members().len() == pre.members().len()
    &&& forall|x: u32| (#[trigger] post.contains_id(x)) <==> pre.contains_id(x)
    &&& forall|x: u32| pre.contains_id(x) ==> #[trigger] post.item_of(x) == pre.item_of(x)
}

/// The successful outcome of a move: the creature leaves the container the
/// index filed it in, enters the destination container, the index entry is
/// updated, and no other container or index entry changes.
pub open spec fn move_effect(
    pre: Storage,
    post: Storage,
    id: u32,
    destination: StorageDestination,
) -> bool {
    let src = pre.location_of(id);
    let dst = dest_location(destination);
    &&& pre.indexed(id)
    &&& pre.dest_valid(destination)
    &&& same_config(pre, post)
    &&& post.containers_wf()
    &&& post.spec_boxes().len() == pre.spec_boxes().len()
    &&& post.locations() == pre.locations().insert(id, dst)
    &&& post.item_of(id) == pre.item_of(id)
    &&& if src == dst {
        &&& moved_within(pre.container_at(src), post.container_at(src), id)
        &&& (src != ContainerLocation::Party ==> post.spec_party() == pre.spec_party())
        &&& forall|j: usize|
            j < pre.spec_boxes().len() && ContainerLocation::Box(j) != src
                ==> #[trigger] post.spec_boxes()[j as int] == pre.spec_boxes()[j as int]
    } else {
        &&& container_removed(pre.container_at(src), post.container_at(src), id)
        &&& container_inserted(pre.container_at(dst), post.container_at(dst), pre.item_of(id))
        &&& (src != ContainerLocation::Party && dst != ContainerLocation::Party
            ==> post.spec_party() == pre.spec_party())
        &&& forall|j: usize|
            j < pre.spec_boxes().len() && ContainerLocation::Box(j) != src
                && ContainerLocation::Box(j) != dst ==> #[trigger] post.spec_boxes()[j as int]
                == pre.spec_boxes()[j as int]
    }
}

/// In a well-formed inventory an indexed creature is present in the container
/// its index entry names, and carries the identifier it is filed under.
pub proof fn lemma_indexed_present(s: Storage, id: u32)
    requires
        s.wf(),
        s.indexed(id),
    ensures
        s.loc_valid(s.location_of(id)),
        s.container_at(s.location_of(id)).contains_id(id),
        s.item_of(id).pokeAPI_id == id,
{
    assert(s.loc_valid(s.location_of(id)));
    match s.location_of(id) {
        ContainerLocation::Party => {
            assert(s.spec_party().contains_id(id) <==> s.indexed(id) && s.location_of(id)
                == ContainerLocation::Party);
        },
        ContainerLocation::Box(b) => {
            assert(s.spec_boxes()[b as int].contains_id(id) <==> s.indexed(id) && s.location_of(id)
                == ContainerLocation::Box(b));
        },
    }
    let c = s.container_at(s.location_of(id));
    assert(c.contains_id(id));
    assert(c.item_of(id).pokeAPI_id == id);
}

/// Placing a creature that the index does not file elsewhere keeps the
/// inventory well-formed: the capacity invariant, the index-membership
/// consistency and the no-orphan property all survive a successful placement.
pub proof fn lemma_place_preserves_wf(
    pre: Storage,
    post: Storage,
    p: Pokemon,
    destination: StorageDestination,
)
    requires
        pre.wf(),
        place_effect(pre, post, p, destination),
        !pre.indexed(p.pokeAPI_id) || pre.location_of(p.pokeAPI_id) == dest_location(destination),
    ensures
        post.wf(),
{
    let pid = p.pokeAPI_id;
    assert forall|id: u32| #[trigger] post.indexed(id) implies post.loc_valid(
        post.location_of(id),
    ) by {
        if id == pid {
            assert(pre.dest_valid(destination));
        } else {
            assert(pre.indexed(id));
            assert(pre.loc_valid(pre.location_of(id)));
        }
    }
    assert forall|id: u32|
        (#[trigger] post.spec_party().contains_id(id)) <==> post.indexed(id) && post.location_of(
            id,
        ) == ContainerLocation::Party by {
        assert(pre.spec_party().contains_id(id) <==> pre.indexed(id) && pre.location_of(id)
            == ContainerLocation::Party);
        match destination {
            StorageDestination::Party => {
                if id == pid {
                    assert(post.spec_party().contains_id(pid));
                } else {
                    assert(post.spec_party().contains_id(id) <==> pre.spec_party().contains_id(
                        id,
                    ));
                }
            },
            StorageDestination::Box(b) => {
                assert(post.spec_party() == pre.spec_party());
                if id == pid {
                    if pre.indexed(pid) {
                        assert(pre.location_of(pid) == ContainerLocation::Box(b));
                    }
                    assert(!pre.spec_party().contains_id(pid));
                    assert(post.location_of(pid) == ContainerLocation::Box(b));
                }
            },
        }
    }
    assert forall|id: u32, i: usize| i < post.spec_boxes().len() implies ((
    #[trigger] post.spec_boxes()[i as int].contains_id(id)) <==> post.indexed(id)
        && post.location_of(id) == ContainerLocation::Box(i)) by {
        assert(pre.spec_boxes()[i as int].contains_id(id) <==> pre.indexed(id) && pre.location_of(
            id,
        ) == ContainerLocation::Box(i));
        match destination {
            StorageDestination::Party => {
                assert(post.spec_boxes()[i as int] == pre.spec_boxes()[i as int]);
                if id == pid {
                    if pre.indexed(pid) {
                        assert(pre.location_of(pid) == ContainerLocation::Party);
                    }
                    assert(!pre.spec_boxes()[i as int].contains_id(pid));
                    assert(post.location_of(pid) == ContainerLocation::Party);
                }
            },
            StorageDestination::Box(b) => {
                if i == b {
                    if id == pid {
                        assert(post.spec_boxes()[i as int].contains_id(pid));
                    } else {
                        assert(post.spec_boxes()[i as int].contains_id(id)
                            <==> pre.spec_boxes()[i as int].contains_id(id));
                    }
                } else {
                    assert(post.spec_boxes()[i as int] == pre.spec_boxes()[i as int]);
                    if id == pid {
                        if pre.indexed(pid) {
                            assert(pre.location_of(pid) == ContainerLocation::Box(b));
                        }
                        assert(!pre.spec_boxes()[i as int].contains_id(pid));
                    }
                }
            },
        }
    }
}

/// Detaching a creature and reinserting it into the same container leaves the
/// membership unchanged.
proof fn lemma_remove_insert_within(c0: Container, c1: Container, c2: Container, p: Pokemon)
    requires
        c0.contains_id(p.pokeAPI_id),
        p == c0.item_of(p.pokeAPI_id),
        container_removed(c0, c1, p.pokeAPI_id),
        container_inserted(c1, c2, p),
    ensures
        moved_within(c0, c2, p.pokeAPI_id),
{
    let id = p.pokeAPI_id;
    assert forall|x: u32| (#[trigger] c2.contains_id(x)) <==> c0.contains_id(x) by {
        if x != id {
            assert(c2.contains_id(x) <==> c1.contains_id(x));
            assert(c1.contains_id(x) <==> c0.contains_id(x));
        } else {
            assert(c2.contains_id(id));
            assert(c0.contains_id(id));
        }
    }
    assert forall|x: u32| c0.contains_id(x) implies #[trigger] c2.item_of(x) == c0.item_of(x) by {
        if x != id {
            assert(c1.contains_id(x));
            assert(c2.item_of(x) == c1.item_of(x));
            assert(c1.item_of(x) == c0.item_of(x));
        } else {
            assert(c2.item_of(id) == p);
        }
    }
}

/// A successful move keeps the inventory well-formed: the capacity invariant,
/// the index-membership consistency and the no-orphan property all survive.
pub proof fn lemma_move_preserves_wf(
    pre: Storage,
    post: Storage,
    id0: u32,
    destination: StorageDestination,
)
    requires
        pre.wf(),
        move_effect(pre, post, id0, destination),
    ensures
        post.wf(),
{
    let src = pre.location_of(id0);
    let dst = dest_location(destination);
    lemma_indexed_present(pre, id0);
    let item = pre.item_of(id0);
    assert(item.pokeAPI_id == id0);
    assert forall|id: u32| #[trigger] post.indexed(id) implies post.loc_valid(
        post.location_of(id),
    ) by {
        if id == id0 {
            assert(post.location_of(id0) == dst);
            assert(pre.loc_valid(dst));
        } else {
            assert(pre.indexed(id));
            assert(pre.loc_valid(pre.location_of(id)));
        }
    }
    assert forall|id: u32|
        (#[trigger] post.spec_party().contains_id(id)) <==> post.indexed(id) && post.location_of(
            id,
        ) == ContainerLocation::Party by {
        assert(pre.spec_party().contains_id(id) <==> pre.indexed(id) && pre.location_of(id)
            == ContainerLocation::Party);
        if src == dst {
            if src == ContainerLocation::Party {
                assert(moved_within(pre.spec_party(), post.spec_party(), id0));
                assert(post.spec_party().contains_id(id) <==> pre.spec_party().contains_id(id));
            } else {
                assert(post.spec_party() == pre.spec_party());
            }
            if id == id0 {
                assert(post.location_of(id0) == src);
            }
        } else {
            if src == ContainerLocation::Party {
                assert(container_removed(pre.spec_party(), post.spec_party(), id0));
                if id == id0 {
                    assert(!post.spec_party().contains_id(id0));
                    assert(post.location_of(id0) == dst);
                    assert(dst != ContainerLocation::Party);
                } else {
                    assert(post.spec_party().contains_id(id) <==> pre.spec_party().contains_id(
                        id,
                    ));
                }
            } else if dst == ContainerLocation::Party {
                assert(container_inserted(pre.spec_party(), post.spec_party(), item));
                if id == id0 {
                    assert(post.spec_party().contains_id(id0));
                    assert(post.location_of(id0) == ContainerLocation::Party);
                } else {
                    assert(post.spec_party().contains_id(id) <==> pre.spec_party().contains_id(
                        id,
                    ));
                }
            } else {
                assert(post.spec_party() == pre.spec_party());
                if id == id0 {
                    assert(!pre.spec_party().contains_id(id0));
                    assert(post.location_of(id0) == dst);
                }
            }
        }
    }
    assert forall|id: u32, i: usize| i < post.spec_boxes().len() implies ((
    #[trigger] post.spec_boxes()[i as int].contains_id(id)) <==> post.indexed(id)
        && post.location_of(id) == ContainerLocation::Box(i)) by {
        assert(pre.spec_boxes()[i as int].contains_id(id) <==> pre.indexed(id) && pre.location_of(
            id,
        ) == ContainerLocation::Box(i));
        let here = ContainerLocation::Box(i);
        if src == dst {
            if here == src {
                assert(moved_within(pre.container_at(src), post.container_at(src), id0));
                assert(post.spec_boxes()[i as int].contains_id(id)
                    <==> pre.spec_boxes()[i as int].contains_id(id));
            } else {
                assert(post.spec_boxes()[i as int] == pre.spec_boxes()[i as int]);
            }
            if id == id0 {
                assert(post.location_of(id0) == src);
            }
        } else {
            if here == src {
                assert(container_removed(pre.container_at(src), post.container_at(src), id0));
                if id == id0 {
                    assert(!post.spec_boxes()[i as int].contains_id(id0));
                    assert(post.location_of(id0) == dst);
                    assert(dst != here);
                } else {
                    assert(post.spec_boxes()[i as int].contains_id(id)
                        <==> pre.spec_boxes()[i as int].contains_id(id));
                }
            } else if here == dst {
                assert(container_inserted(pre.container_at(dst), post.container_at(dst), item));
                if id == id0 {
                    assert(post.spec_boxes()[i as int].contains_id(id0));
                } else {
                    assert(post.spec_boxes()[i as int].contains_id(id)
                        <==> pre.spec_boxes()[i as int].contains_id(id));
                }
            } else {
                assert(post.spec_boxes()[i as int] == pre.spec_boxes()[i as int]);
                if id == id0 {
                    assert(!pre.spec_boxes()[i as int].contains_id(id0));
                }
            }
        }
    }
}

/// An operation that leaves the observable state unchanged leaves
/// well-formedness intact.
pub proof fn lemma_same_state_wf(pre: Storage, post: Storage)
    requires
        pre.wf(),
        same_state(pre, post),
    ensures
        post.wf(),
{
    assert forall|i: int| 0 <= i < post.spec_boxes().len() implies (
    #[trigger] post.spec_boxes()[i]).wf() && post.spec_boxes()[i].capacity()
        == post.spec_max_box_size() by {
        assert(post.spec_boxes()[i] == pre.spec_boxes()[i]);
        assert(pre.spec_boxes()[i].wf());
    }
    assert forall|id: u32| #[trigger] post.indexed(id) implies post.loc_valid(
        post.location_of(id),
    ) by {
        assert(pre.indexed(id));
        assert(pre.loc_valid(pre.location_of(id)));
    }
    assert forall|id: u32|
        (#[trigger] post.spec_party().contains_id(id)) <==> post.indexed(id) && post.location_of(
            id,
        ) == ContainerLocation::Party by {
        assert(pre.spec_party().contains_id(id) <==> pre.indexed(id) && pre.location_of(id)
            == ContainerLocation::Party);
    }
    assert forall|id: u32, i: usize| i < post.spec_boxes().len() implies ((
    #[trigger] post.spec_boxes()[i as int].contains_id(id)) <==> post.indexed(id)
        && post.location_of(id) == ContainerLocation::Box(i)) by {
        assert(post.spec_boxes()[i as int] == pre.spec_boxes()[i as int]);
        assert(pre.spec_boxes()[i as int].contains_id(id) <==> pre.indexed(id) && pre.location_of(
            id,
        ) == ContainerLocation::Box(i));
    }
}

/// Capacity invariant: in a well-formed inventory no container holds more
/// creatures than its configured capacity. Every operation's contract keeps
/// the inventory well-formed, so this holds after any sequence of successful
/// placements and moves.
pub proof fn lemma_capacity_invariant(s: Storage)
    requires
        s.wf(),
    ensures
        s.spec_party().members().len() <= s.spec_party().capacity(),
        forall|i: usize|
            i < s.spec_boxes().len() ==> (#[trigger] s.spec_boxes()[i as int]).members().len()
                <= s.spec_boxes()[i as int].capacity(),
{
}

/// Index consistency, one direction: in a well-formed inventory every indexed
/// creature is physically present in the container its index entry names, and
/// in no other container.
pub proof fn lemma_index_consistency(s: Storage, id: u32)
    requires
        s.wf(),
        s.indexed(id),
    ensures
        s.loc_valid(s.location_of(id)),
        s.container_at(s.location_of(id)).contains_id(id),
        s.location_of(id) != ContainerLocation::Party ==> !s.spec_party().contains_id(id),
        forall|i: usize|
            i < s.spec_boxes().len() && s.location_of(id) != ContainerLocation::Box(i) ==> !(
            #[trigger] s.spec_boxes()[i as int]).contains_id(id),
{
    lemma_indexed_present(s, id);
    assert(s.spec_party().contains_id(id) <==> s.indexed(id) && s.location_of(id)
        == ContainerLocation::Party);
    assert forall|i: usize|
        i < s.spec_boxes().len() && s.location_of(id) != ContainerLocation::Box(i) implies !(
    #[trigger] s.spec_boxes()[i as int]).contains_id(id) by {
        assert(s.spec_boxes()[i as int].contains_id(id) <==> s.indexed(id) && s.location_of(id)
            == ContainerLocation::Box(i));
    }
}

/// Index consistency, the other direction (no orphans): in a well-formed
/// inventory every physically present creature is filed in the index, under
/// the container that holds it.
pub proof fn lemma_no_orphans(s: Storage, id: u32)
    requires
        s.wf(),
    ensures
        s.spec_party().contains_id(id) ==> s.indexed(id) && s.location_of(id)
            == ContainerLocation::Party,
        forall|i: usize|
            i < s.spec_boxes().len() && (#[trigger] s.spec_boxes()[i as int]).contains_id(id)
                ==> s.indexed(id) && s.location_of(id) == ContainerLocation::Box(i),
{
}

/// Move round trip: placing a new creature into box `a`, moving it to the
/// party and moving it back to box `a` leaves it present in box `a`, filed
/// there by the index, unchanged as a value — and the party holding exactly
/// the other creatures it held at the start.
pub proof fn lemma_move_round_trip(
    s0: Storage,
    s1: Storage,
    s2: Storage,
    s3: Storage,
    p: Pokemon,
    a: usize,
)
    requires
        s0.wf(),
        !s0.indexed(p.pokeAPI_id),
        place_effect(s0, s1, p, StorageDestination::Box(a)),
        move_effect(s1, s2, p.pokeAPI_id, StorageDestination::Party),
        move_effect(s2, s3, p.pokeAPI_id, StorageDestination::Box(a)),
    ensures
        s3.wf(),
        a < s3.spec_boxes().len(),
        s3.spec_boxes()[a as int].contains_id(p.pokeAPI_id),
        s3.location_of(p.pokeAPI_id) == ContainerLocation::Box(a),
        s3.item_of(p.pokeAPI_id) == p,
        forall|x: u32|
            x != p.pokeAPI_id ==> ((#[trigger] s3.spec_party().contains_id(x))
                <==> s0.spec_party().contains_id(x)),
{
    let pid = p.pokeAPI_id;
    lemma_place_preserves_wf(s0, s1, p, StorageDestination::Box(a));
    lemma_move_preserves_wf(s1, s2, pid, StorageDestination::Party);
    lemma_move_preserves_wf(s2, s3, pid, StorageDestination::Box(a));
    assert(s1.location_of(pid) == ContainerLocation::Box(a));
    assert(s2.location_of(pid) == ContainerLocation::Party);
    assert(s3.location_of(pid) == ContainerLocation::Box(a));
    assert(s1.item_of(pid) == p) by {
        assert(container_inserted(s0.spec_boxes()[a as int], s1.spec_boxes()[a as int], p));
    }
    assert(s2.item_of(pid) == p);
    assert(s3.item_of(pid) == p);
    assert(s3.spec_boxes()[a as int].contains_id(pid)) by {
        assert(s3.spec_boxes()[a as int].contains_id(pid) <==> s3.indexed(pid) && s3.location_of(
            pid,
        ) == ContainerLocation::Box(a));
    }
    assert forall|x: u32| x != pid implies ((#[trigger] s3.spec_party().contains_id(x))
        <==> s0.spec_party().contains_id(x)) by {
        assert(s1.spec_party() == s0.spec_party());
        assert(container_inserted(s1.spec_party(), s2.spec_party(), s1.item_of(pid)));
        assert(container_removed(s2.spec_party(), s3.spec_party(), pid));
        assert(s2.spec_party().contains_id(x) <==> s1.spec_party().contains_id(x));
        assert(s3.spec_party().contains_id(x) <==> s2.spec_party().contains_id(x));
    }
}

} // verus!
