use pokebox::pokemon::Pokemon;
use pokebox::pokemon_api::get_pokemon;
use pokebox::pokemon_api::PokemonFromApi;
use pokebox::pokemon_api::PokemonSepeciesFromApi;
use pokebox::storage::Container;
use pokebox::storage::Storage;
use pokebox::storage::StorageDestination;
use pokebox::storage::StorageError;

#[allow(non_snake_case)]
fn mk(id: u32) -> Pokemon {
    Pokemon {
        pokeAPI_id: id,
        name: format!("creature-{}", id),
        height: id + 1,
        weight: 10 * id,
        base_happiness: 50,
    }
}

fn ids(list: &[Pokemon]) -> Vec<u32> {
    let mut v: Vec<u32> = list.iter().map(|p| p.id()).collect();
    v.sort();
    v
}

fn count_everywhere(s: &Storage, boxes: usize, id: u32) -> usize {
    let mut n = 0;
    for p in s.get_party().unwrap() {
        if p.id() == id {
            n += 1;
        }
    }
    for b in 0..boxes {
        for p in s.get_box(b).unwrap() {
            if p.id() == id {
                n += 1;
            }
        }
    }
    n
}

#[test]
fn pokemon_id_returns_identifier() {
    let p = mk(141);
    assert_eq!(p.id(), 141);
    let q = p.clone();
    assert_eq!(q.id(), 141);
    assert_eq!(q.name, "creature-141");
}

#[test]
fn api_records_combine_into_pokemon() {
    let body = PokemonFromApi {
        id: 141,
        name: "kabutops".to_string(),
        height: 13,
        weight: 405,
        base_happiness: 0,
    };
    let species = PokemonSepeciesFromApi {
        id: 141,
        base_happiness: 70,
    };
    let p = get_pokemon(body, species);
    assert_eq!(p.id(), 141);
    assert_eq!(p.name, "kabutops");
    assert_eq!(p.height, 13);
    assert_eq!(p.weight, 405);
    assert_eq!(p.base_happiness, 70);
}

#[test]
fn container_capacity_one_rejects_second_insert() {
    let mut c = Container::new(1);
    assert!(c.has_space());
    assert!(c.push(mk(1)).is_ok());
    assert!(!c.has_space());
    assert_eq!(c.push(mk(2)).unwrap_err(), StorageError::ContainerIsFull);
    let members = c.get_pokemon();
    assert_eq!(ids(&members), vec![1]);
}

#[test]
fn container_overwrites_duplicate_identifier() {
    let mut c = Container::new(3);
    assert!(c.push(mk(5)).is_ok());
    let mut newer = mk(5);
    newer.weight = 999;
    assert!(c.push(newer).is_ok());
    let members = c.get_pokemon();
    assert_eq!(members.len(), 1);
    assert_eq!(members[0].weight, 999);
}

#[test]
fn container_remove_detaches_and_fails_when_absent() {
    let mut c = Container::new(2);
    assert_eq!(c.remove(9).unwrap_err(), StorageError::PokemonNotFound);
    assert!(c.push(mk(9)).is_ok());
    let p = c.remove(9).unwrap();
    assert_eq!(p.id(), 9);
    assert!(c.get_pokemon().is_empty());
    assert_eq!(c.remove(9).unwrap_err(), StorageError::PokemonNotFound);
}

#[test]
fn add_box_hands_out_handles_in_creation_order() {
    let mut s = Storage::default();
    assert_eq!(s.add_box(), Ok(0));
    assert_eq!(s.add_box(), Ok(1));
    assert_eq!(s.add_box(), Ok(2));
    assert!(s.get_box(2).unwrap().is_empty());
}

#[test]
fn get_box_out_of_range_fails() {
    let mut s = Storage::default();
    s.add_box().unwrap();
    s.add_box().unwrap();
    assert_eq!(s.get_box(7).unwrap_err(), StorageError::BoxDoesNotExist);
    assert!(s.get_box(1).is_ok());
}

#[test]
fn place_into_missing_box_fails() {
    let mut s = Storage::default();
    assert_eq!(
        s.add_pokemon(mk(1), StorageDestination::Box(5)).unwrap_err(),
        StorageError::BoxDoesNotExist
    );
    assert!(s.get_party().unwrap().is_empty());
}

#[test]
fn party_at_capacity_rejects_placement() {
    let mut s = Storage::default();
    for id in 1..=6 {
        assert!(s.add_pokemon(mk(id), StorageDestination::Party).is_ok());
    }
    assert_eq!(s.get_party().unwrap().len(), 6);
    assert_eq!(
        s.add_pokemon(mk(7), StorageDestination::Party).unwrap_err(),
        StorageError::ContainerIsFull
    );
    assert_eq!(ids(&s.get_party().unwrap()), vec![1, 2, 3, 4, 5, 6]);
}

#[test]
fn move_to_full_party_fails_and_loses_nothing() {
    let mut s = Storage::default();
    for id in 1..=6 {
        assert!(s.add_pokemon(mk(id), StorageDestination::Party).is_ok());
    }
    s.add_box().unwrap();
    assert!(s.add_pokemon(mk(10), StorageDestination::Box(0)).is_ok());
    assert_eq!(
        s.move_pokemon(10, StorageDestination::Party).unwrap_err(),
        StorageError::ContainerIsFull
    );
    assert_eq!(ids(&s.get_box(0).unwrap()), vec![10]);
    assert_eq!(s.get_party().unwrap().len(), 6);
}

#[test]
fn move_within_full_party_still_fails() {
    // The capacity check runs against the destination before anything is
    // removed, so even a member of the full party cannot be "moved" into it.
    let mut s = Storage::default();
    for id in 1..=6 {
        assert!(s.add_pokemon(mk(id), StorageDestination::Party).is_ok());
    }
    assert_eq!(
        s.move_pokemon(3, StorageDestination::Party).unwrap_err(),
        StorageError::ContainerIsFull
    );
    assert_eq!(ids(&s.get_party().unwrap()), vec![1, 2, 3, 4, 5, 6]);
}

#[test]
fn move_unindexed_identifier_fails_and_mutates_nothing() {
    let mut s = Storage::default();
    s.add_box().unwrap();
    assert!(s.add_pokemon(mk(1), StorageDestination::Box(0)).is_ok());
    assert_eq!(
        s.move_pokemon(99, StorageDestination::Box(0)).unwrap_err(),
        StorageError::PokemonNotFound
    );
    assert_eq!(ids(&s.get_box(0).unwrap()), vec![1]);
    assert!(s.get_party().unwrap().is_empty());
}

#[test]
fn move_to_missing_box_fails_before_touching_state() {
    let mut s = Storage::default();
    assert!(s.add_pokemon(mk(1), StorageDestination::Party).is_ok());
    assert_eq!(
        s.move_pokemon(1, StorageDestination::Box(3)).unwrap_err(),
        StorageError::BoxDoesNotExist
    );
    assert_eq!(ids(&s.get_party().unwrap()), vec![1]);
}

#[test]
fn two_boxes_move_shows_item_only_in_destination() {
    let mut s = Storage::default();
    assert_eq!(s.add_box(), Ok(0));
    assert_eq!(s.add_box(), Ok(1));
    assert!(s.add_pokemon(mk(25), StorageDestination::Party).is_ok());
    let moved = s.move_pokemon(25, StorageDestination::Box(1)).unwrap();
    assert_eq!(moved.id(), 25);
    assert!(s.get_box(0).unwrap().is_empty());
    assert_eq!(ids(&s.get_box(1).unwrap()), vec![25]);
    assert!(s.get_party().unwrap().is_empty());
}

#[test]
fn move_round_trip_returns_item_to_its_box() {
    let mut s = Storage::default();
    s.add_box().unwrap();
    assert!(s.add_pokemon(mk(1), StorageDestination::Party).is_ok());
    assert!(s.add_pokemon(mk(7), StorageDestination::Box(0)).is_ok());
    let to_party = s.move_pokemon(7, StorageDestination::Party).unwrap();
    assert_eq!(to_party.id(), 7);
    assert_eq!(ids(&s.get_party().unwrap()), vec![1, 7]);
    let back = s.move_pokemon(7, StorageDestination::Box(0)).unwrap();
    assert_eq!(back.id(), 7);
    assert_eq!(back.weight, 70);
    assert_eq!(ids(&s.get_box(0).unwrap()), vec![7]);
    // the rest of the party is untouched by the round trip
    assert_eq!(ids(&s.get_party().unwrap()), vec![1]);
}

#[test]
fn capacity_never_exceeded_across_operations() {
    let mut s = Storage::default();
    s.add_box().unwrap();
    s.add_box().unwrap();
    for id in 1..=6 {
        assert!(s.add_pokemon(mk(id), StorageDestination::Party).is_ok());
    }
    for id in 7..=20 {
        assert!(s.add_pokemon(mk(id), StorageDestination::Box(0)).is_ok());
    }
    assert!(s.move_pokemon(3, StorageDestination::Box(1)).is_ok());
    assert!(s.move_pokemon(7, StorageDestination::Party).is_ok());
    assert!(s.get_party().unwrap().len() <= 6);
    assert!(s.get_box(0).unwrap().len() <= 30);
    assert!(s.get_box(1).unwrap().len() <= 30);
}

#[test]
fn every_indexed_item_lives_in_exactly_one_container() {
    let mut s = Storage::default();
    s.add_box().unwrap();
    s.add_box().unwrap();
    assert!(s.add_pokemon(mk(1), StorageDestination::Party).is_ok());
    assert!(s.add_pokemon(mk(2), StorageDestination::Box(0)).is_ok());
    assert!(s.add_pokemon(mk(3), StorageDestination::Box(1)).is_ok());
    assert!(s.move_pokemon(2, StorageDestination::Party).is_ok());
    assert!(s.move_pokemon(1, StorageDestination::Box(1)).is_ok());
    // a failed move must not disturb the placement either
    assert!(s.move_pokemon(4, StorageDestination::Box(0)).is_err());
    for id in 1..=3 {
        assert_eq!(count_everywhere(&s, 2, id), 1);
    }
}

#[test]
fn moved_item_is_returned_unchanged() {
    let mut s = Storage::default();
    s.add_box().unwrap();
    let placed = mk(151);
    assert!(s
        .add_pokemon(placed.clone(), StorageDestination::Box(0))
        .is_ok());
    let moved = s.move_pokemon(151, StorageDestination::Party).unwrap();
    assert_eq!(moved.id(), placed.id());
    assert_eq!(moved.name, placed.name);
    assert_eq!(moved.height, placed.height);
    assert_eq!(moved.weight, placed.weight);
    assert_eq!(moved.base_happiness, placed.base_happiness);
}
