use wavetable_synth::{ArenaError, Wavetable, WavetableArena};

fn table_of(first: i64) -> Wavetable {
    Wavetable::from_samples(vec![first, 0, 0, 0]).unwrap()
}

#[test]
fn add_fills_capacity_then_reports_capacity_error() {
    let mut arena = WavetableArena::new(3);
    assert_eq!(arena.add(table_of(1)), Ok(0));
    assert_eq!(arena.add(table_of(2)), Ok(1));
    assert_eq!(arena.add(table_of(3)), Ok(2));
    // The capacity + 1-th call fails...
    assert_eq!(arena.add(table_of(4)), Err(ArenaError::CapacityExceeded));
    // ...and corrupts nothing.
    assert_eq!(arena.get(0).unwrap().sample_at(0), 1);
    assert_eq!(arena.get(1).unwrap().sample_at(0), 2);
    assert_eq!(arena.get(2).unwrap().sample_at(0), 3);
}

#[test]
fn get_out_of_range_or_empty_is_none() {
    let mut arena = WavetableArena::new(4);
    assert!(arena.get(0).is_none());
    assert!(arena.get(3).is_none());
    assert!(arena.get(4).is_none());
    assert!(arena.get(1000).is_none());
    arena.add(table_of(9)).unwrap();
    assert!(arena.get(0).is_some());
    assert!(arena.get(1).is_none());
}

#[test]
fn free_returns_the_table_and_add_reuses_the_slot() {
    let mut arena = WavetableArena::new(2);
    assert_eq!(arena.add(table_of(1)), Ok(0));
    assert_eq!(arena.add(table_of(2)), Ok(1));
    let displaced = arena.free(0).unwrap();
    assert_eq!(displaced.sample_at(0), 1);
    assert!(arena.get(0).is_none());
    // The freed slot is consumed before the (exhausted) fresh ones.
    assert_eq!(arena.add(table_of(3)), Ok(0));
    assert_eq!(arena.get(0).unwrap().sample_at(0), 3);
    assert_eq!(arena.get(1).unwrap().sample_at(0), 2);
}

#[test]
fn free_of_an_empty_slot_changes_nothing() {
    let mut arena = WavetableArena::new(2);
    arena.add(table_of(1)).unwrap();
    assert!(arena.free(1).is_none());
    assert!(arena.free(50).is_none());
    assert_eq!(arena.get(0).unwrap().sample_at(0), 1);
}

#[test]
fn replace_swaps_in_place_and_hands_back_the_old_table() {
    let mut arena = WavetableArena::new(2);
    arena.add(table_of(1)).unwrap();
    let displaced = arena.replace(0, table_of(7)).unwrap();
    assert_eq!(displaced.sample_at(0), 1);
    assert_eq!(arena.get(0).unwrap().sample_at(0), 7);
}

#[test]
fn replace_of_an_invalid_handle_is_an_error() {
    let mut arena = WavetableArena::new(2);
    arena.add(table_of(1)).unwrap();
    assert_eq!(
        arena.replace(1, table_of(7)).unwrap_err(),
        ArenaError::InvalidHandle
    );
    assert_eq!(
        arena.replace(10, table_of(7)).unwrap_err(),
        ArenaError::InvalidHandle
    );
    assert_eq!(arena.get(0).unwrap().sample_at(0), 1);
    assert!(arena.get(1).is_none());
}
