use smec::genarena::{check_raw, Entry, GenArena, Index};

#[test]
fn insert_get() {
    let mut arena = GenArena::with_capacity(16);
    assert_eq!(arena.push(10), Index::new(0, 0));
    assert_eq!(arena.push(9), Index::new(1, 0));
    assert_eq!(arena.push(8), Index::new(2, 0));
    assert_eq!(arena.get(Index::new(1, 0)), Some(&9));
    if let Some(x) = arena.get_mut(Index::new(2, 0)) {
        *x = 15
    }
    assert_eq!(arena.get(Index::new(2, 0)), Some(&15));
    assert_eq!(arena.len(), 3);
}

#[test]
fn insert_get_no_capacity() {
    let mut arena = GenArena::with_capacity(0);
    assert_eq!(arena.push(10), Index::new(0, 0));
    assert_eq!(arena.push(9), Index::new(1, 0));
    assert_eq!(arena.push(8), Index::new(2, 0));
    assert_eq!(arena.get(Index::new(1, 0)), Some(&9));
}

#[test]
fn insert_get_full() {
    let mut arena = GenArena::with_capacity(8);
    for _ in 0..8 {
        arena.push(5);
    }
    assert_eq!(arena.capacity(), 8);
    assert_eq!(arena.len(), 8);
    for _ in 0..4 {
        arena.push(5);
    }
    assert!(arena.capacity() >= 12);
    assert_eq!(arena.len(), 12);
}

#[test]
fn tests_iter() {
    let mut arena = GenArena::with_capacity(4);
    for i in 0..4 {
        arena.push(i as u64);
    }
    let mut iter = arena.iter();
    assert_eq!(iter.next(), Some((Index::new(0, 0), &0)));
    assert_eq!(iter.next(), Some((Index::new(1, 0), &1)));
    assert_eq!(iter.next(), Some((Index::new(2, 0), &2)));
    assert_eq!(iter.next(), Some((Index::new(3, 0), &3)));
    assert_eq!(iter.next(), None);
}

#[test]
fn removals() {
    let mut arena = GenArena::with_capacity(0);
    let idx1 = arena.push(10);
    let idx2 = arena.push(9);
    let idx3 = arena.push(8);
    arena.remove(idx3);
    arena.remove(idx2);
    // deleting should return stored value
    assert_eq!(arena.remove(idx1), Some(10));
    // new pushes should have a new generation, and should be at the last place removed
    assert_eq!(arena.push(5), Index::new(0, 1));
    assert_eq!(arena.push(6), Index::new(1, 1));
    // getting the new generation should work
    assert_eq!(arena.get(Index::new(0, 1)), Some(&5));
    // getting non existing id should return None
    assert_eq!(arena.get(idx2), None);
    assert_eq!(arena.get(idx3), None);
    // getting an index that exists but on a different generation should return None
    assert_eq!(arena.get(idx1), None);
    assert_eq!(arena.push(7), Index::new(2, 1));
    assert_eq!(arena.push(8), Index::new(3, 0));
    assert_eq!(arena.push(9), Index::new(4, 0));
}

#[test]
fn new_arena_has_the_default_capacity() {
    let arena: GenArena<u8> = GenArena::new();
    assert_eq!(arena.capacity(), 32);
    assert_eq!(arena.capacity(), smec::genarena::DEFAULT_ARENA_CAPACITY);
    assert_eq!(arena.len(), 0);
    assert!(arena.is_empty());
    let arena: GenArena<u8> = GenArena::default();
    assert_eq!(arena.capacity(), 32);
    assert_eq!(arena.next_free(), Some(0));
}

#[test]
fn full_arena_grows_by_its_capacity_and_by_eight_at_least() {
    let mut arena = GenArena::with_capacity(0);
    assert_eq!(arena.capacity(), 0);
    arena.push(1);
    assert_eq!(arena.capacity(), 8);
    for i in 0..7 {
        arena.push(i);
    }
    assert_eq!(arena.capacity(), 8);
    arena.push(9);
    assert_eq!(arena.capacity(), 16);

    let mut arena = GenArena::with_capacity(10);
    for i in 0..10 {
        arena.push(i);
    }
    assert_eq!(arena.capacity(), 10);
    assert_eq!(arena.push(10), Index::new(10, 0));
    assert_eq!(arena.capacity(), 20);
    assert_eq!(arena.len(), 11);
}

#[test]
fn removing_a_stale_handle_changes_nothing() {
    let mut arena = GenArena::with_capacity(4);
    let a = arena.push('a');
    let b = arena.push('b');
    assert_eq!(arena.remove(a), Some('a'));
    assert_eq!(arena.len(), 1);
    assert_eq!(arena.remove(a), None);
    assert_eq!(arena.len(), 1);
    assert_eq!(arena.get(b), Some(&'b'));
    // a handle of another generation of an occupied slot
    assert_eq!(arena.remove(Index::new(b.index, b.generation + 1)), None);
    assert_eq!(arena.get(b), Some(&'b'));
    // a handle whose index is out of bounds
    assert_eq!(arena.remove(Index::new(100, 0)), None);
    assert_eq!(arena.get(Index::new(100, 0)), None);
    assert_eq!(arena.get_mut(Index::new(100, 0)), None);
    assert!(!arena.contains(Index::new(100, 0)));
    assert!(!arena.contains(a));
    assert!(arena.contains(b));
    assert_eq!(arena.len(), 1);
}

#[test]
fn a_freed_slot_is_used_again_at_the_next_generation() {
    let mut arena = GenArena::with_capacity(4);
    let a = arena.push(1);
    let _b = arena.push(2);
    assert_eq!(arena.remove(a), Some(1));
    let c = arena.push(3);
    assert_eq!(c.index, a.index);
    assert_eq!(c.generation, a.generation + 1);
    assert!(c.generation > a.generation);
    assert_eq!(arena.get(c), Some(&3));
    assert_eq!(arena.get(a), None);
    // and again
    assert_eq!(arena.remove(c), Some(3));
    let d = arena.push(4);
    assert_eq!(d, Index::new(a.index, 2));
}

#[test]
fn handles_stay_unique_under_churn() {
    let mut arena = GenArena::with_capacity(0);
    let mut live: Vec<(Index, u32)> = Vec::new();
    let mut stale: Vec<Index> = Vec::new();
    let mut seed: u32 = 12345;
    for round in 0..2000u32 {
        seed = seed.wrapping_mul(1664525).wrapping_add(1013904223);
        if live.is_empty() || seed % 3 != 0 {
            let handle = arena.push(round);
            assert!(live.iter().all(|(other, _)| *other != handle));
            assert!(stale.iter().all(|other| *other != handle));
            live.push((handle, round));
        } else {
            let at = (seed / 3) as usize % live.len();
            let (handle, value) = live.swap_remove(at);
            assert_eq!(arena.remove(handle), Some(value));
            stale.push(handle);
        }
        assert_eq!(arena.len(), live.len());
    }
    for (handle, value) in &live {
        assert_eq!(arena.get(*handle), Some(value));
    }
    for handle in &stale {
        assert_eq!(arena.get(*handle), None);
        assert!(!arena.contains(*handle));
    }
}

#[test]
fn clear_frees_every_slot_and_retires_every_handle() {
    let mut arena = GenArena::with_capacity(4);
    let a = arena.push('a');
    let b = arena.push('b');
    let c = arena.push('c');
    assert_eq!(arena.remove(b), Some('b'));
    arena.clear();
    assert_eq!(arena.len(), 0);
    assert!(arena.is_empty());
    assert_eq!(arena.capacity(), 4);
    assert!(!arena.contains(a));
    assert!(!arena.contains(b));
    assert!(!arena.contains(c));
    // the slots come back in index order; the generation of each slot that
    // held a value at the clear, or had lost one before, is one
    assert_eq!(arena.push('d'), Index::new(0, 1));
    assert_eq!(arena.push('e'), Index::new(1, 1));
    assert_eq!(arena.push('f'), Index::new(2, 1));
    assert_eq!(arena.push('g'), Index::new(3, 0));
    assert_eq!(arena.push('h'), Index::new(4, 0));
    assert_eq!(arena.get(a), None);
}

#[test]
fn clear_of_an_arena_without_slots() {
    let mut arena: GenArena<u8> = GenArena::with_capacity(0);
    arena.clear();
    assert_eq!(arena.len(), 0);
    assert_eq!(arena.capacity(), 0);
    assert_eq!(arena.next_free(), None);
    assert_eq!(arena.push(7), Index::new(0, 0));
    assert_eq!(arena.capacity(), 8);
}

#[test]
fn reserved_slots_are_handed_out_first() {
    let mut arena = GenArena::with_capacity(2);
    assert_eq!(arena.push(0), Index::new(0, 0));
    arena.reserve_exact(3);
    assert_eq!(arena.capacity(), 5);
    assert_eq!(arena.len(), 1);
    assert_eq!(arena.push(1), Index::new(2, 0));
    assert_eq!(arena.push(2), Index::new(3, 0));
    assert_eq!(arena.push(3), Index::new(4, 0));
    assert_eq!(arena.push(4), Index::new(1, 0));
    assert_eq!(arena.capacity(), 5);
}

#[test]
fn raw_access_goes_by_the_index_alone() {
    let mut arena = GenArena::with_capacity(4);
    let a = arena.push(10);
    arena.remove(a);
    let b = arena.push(11);
    assert_eq!(b, Index::new(0, 1));
    assert_eq!(arena.get_raw(0), Some((&11, 1)));
    assert_eq!(arena.get_raw(1), None);
    assert_eq!(arena.get_raw(4), None);
    if let Some((value, generation)) = arena.get_raw_mut(0) {
        assert_eq!(generation, 1);
        *value = 12;
    }
    assert_eq!(arena.get(b), Some(&12));
    assert_eq!(arena.get_raw_mut(1), None);
    assert_eq!(arena.get_raw_mut(9), None);
}

#[test]
fn iteration_skips_free_slots() {
    let mut arena = GenArena::with_capacity(4);
    let a = arena.push('a');
    let b = arena.push('b');
    let c = arena.push('c');
    arena.remove(b);
    let mut iter = arena.iter();
    assert_eq!(iter.len(), 2);
    assert_eq!(iter.size_hint(), (2, Some(2)));
    assert_eq!(iter.next(), Some((a, &'a')));
    assert_eq!(iter.size_hint(), (1, Some(1)));
    let mut copy = iter.clone();
    assert_eq!(iter.next(), Some((c, &'c')));
    assert_eq!(iter.size_hint(), (0, Some(0)));
    assert_eq!(iter.next(), None);
    assert_eq!(iter.next(), None);
    assert_eq!(copy.next(), Some((c, &'c')));
    assert_eq!(copy.next(), None);
    assert_eq!(arena.values(), vec![&'a', &'c']);
}

#[test]
fn mutable_iteration_writes_to_the_values() {
    let mut arena = GenArena::with_capacity(4);
    let a = arena.push(1);
    let b = arena.push(2);
    let c = arena.push(3);
    arena.remove(a);
    {
        let mut iter = arena.iter_mut();
        assert_eq!(iter.len(), 2);
        assert_eq!(iter.size_hint(), (2, Some(2)));
        while let Some((handle, value)) = iter.next() {
            *value += handle.index;
        }
    }
    assert_eq!(arena.get(b), Some(&3));
    assert_eq!(arena.get(c), Some(&5));
    {
        let mut values = arena.values_mut();
        while let Some(value) = values.next() {
            *value *= 2;
        }
    }
    assert_eq!(arena.values(), vec![&6, &10]);
    assert_eq!(arena.len(), 2);
}

#[test]
fn entries_map_and_as_ref() {
    let free: Entry<u8> = Entry::Free { next_generation: 3, next_free: Some(4) };
    match free.as_ref() {
        Entry::Free { next_generation, next_free } => {
            assert_eq!(next_generation, 3);
            assert_eq!(next_free, Some(4));
        },
        Entry::Occupied { .. } => panic!("a free slot stays free"),
    }
    match free.map(|v| v as u32 + 1) {
        Entry::Free { next_generation, next_free } => {
            assert_eq!(next_generation, 3);
            assert_eq!(next_free, Some(4));
        },
        Entry::Occupied { .. } => panic!("a free slot stays free"),
    }
    let occupied = Entry::Occupied { generation: 2, value: 7u8 };
    match occupied.as_ref() {
        Entry::Occupied { generation, value } => {
            assert_eq!(generation, 2);
            assert_eq!(value, &7);
        },
        Entry::Free { .. } => panic!("an occupied slot stays occupied"),
    }
    match occupied.map(|v| v as u32 + 1) {
        Entry::Occupied { generation, value } => {
            assert_eq!(generation, 2);
            assert_eq!(value, 8u32);
        },
        Entry::Free { .. } => panic!("an occupied slot stays occupied"),
    }
}

#[test]
fn a_clone_shares_nothing() {
    let mut arena = GenArena::with_capacity(2);
    let a = arena.push(String::from("a"));
    let b = arena.push(String::from("b"));
    let mut copy = arena.clone();
    assert_eq!(arena.remove(a), Some(String::from("a")));
    if let Some(value) = arena.get_mut(b) {
        value.push('!');
    }
    assert_eq!(copy.get(a), Some(&String::from("a")));
    assert_eq!(copy.get(b), Some(&String::from("b")));
    assert_eq!(copy.len(), 2);
    assert_eq!(copy.capacity(), 2);
    // the copy has the free list that the arena had when it was copied
    assert_eq!(copy.push(String::from("c")), Index::new(2, 0));
    assert_eq!(arena.push(String::from("c")), Index::new(0, 1));
}

fn parts_of(arena: &GenArena<u8>) -> (Vec<Entry<u8>>, usize, Option<usize>) {
    (arena.entries().to_vec(), arena.len(), arena.next_free())
}

#[test]
fn an_arena_is_rebuilt_from_its_parts() {
    let mut arena = GenArena::with_capacity(0);
    let a = arena.push(1u8);
    let b = arena.push(2);
    let c = arena.push(3);
    arena.remove(b);
    let (entries, length, next_free) = parts_of(&arena);
    assert_eq!(entries.len(), 8);
    assert_eq!(length, 2);
    assert_eq!(next_free, Some(1));
    assert!(check_raw(&entries, length, next_free));
    let mut rebuilt = GenArena::try_from_raw(entries, length, next_free).unwrap();
    assert_eq!(rebuilt.get(a), Some(&1));
    assert_eq!(rebuilt.get(b), None);
    assert_eq!(rebuilt.get(c), Some(&3));
    assert_eq!(rebuilt.len(), 2);
    assert_eq!(rebuilt.push(4), arena.push(4));
    assert_eq!(rebuilt.push(5), arena.push(5));

    let (entries, length, next_free) = parts_of(&arena);
    let rebuilt = GenArena::from_raw(entries, length, next_free);
    assert_eq!(rebuilt.len(), 4);
    assert_eq!(rebuilt.capacity(), 8);
}

#[test]
fn parts_that_are_no_arena_are_refused() {
    let free = |next_free: Option<usize>| Entry::Free { next_generation: 0, next_free };
    let occupied = || Entry::Occupied { generation: 0, value: 1u8 };

    // well formed
    assert!(check_raw(&vec![occupied(), free(None)], 1, Some(1)));
    assert!(check_raw(&vec![free(Some(2)), occupied(), free(None)], 1, Some(0)));
    assert!(check_raw::<u8>(&vec![], 0, None));
    // the length does not count the occupied slots
    assert!(!check_raw(&vec![occupied(), free(None)], 2, Some(1)));
    assert!(!check_raw(&vec![occupied(), free(None)], 0, Some(1)));
    // the head lies outside the slots
    assert!(!check_raw(&vec![occupied(), free(None)], 1, Some(2)));
    assert!(!check_raw::<u8>(&vec![], 0, Some(0)));
    // a link lies outside the slots
    assert!(!check_raw(&vec![occupied(), free(Some(7))], 1, Some(1)));
    // the free list runs into an occupied slot
    assert!(!check_raw(&vec![occupied(), free(Some(0))], 1, Some(1)));
    assert!(!check_raw(&vec![occupied(), free(None)], 1, Some(0)));
    // the free list runs in a circle
    assert!(!check_raw(&vec![free(Some(1)), free(Some(0))], 0, Some(0)));
    assert!(!check_raw(&vec![free(Some(0))], 0, Some(0)));
    // a free slot is not on the free list
    assert!(!check_raw(&vec![free(None), free(None)], 0, Some(0)));
    assert!(!check_raw(&vec![free(None)], 0, None));

    assert!(GenArena::try_from_raw(vec![free(Some(1)), free(Some(0))], 0, Some(0)).is_none());
    assert!(GenArena::try_from_raw(vec![occupied(), free(None)], 1, Some(1)).is_some());
}

#[test]
fn handles_are_ordered_by_index_and_then_by_generation() {
    assert!(Index::new(0, 5) < Index::new(1, 0));
    assert!(Index::new(1, 0) < Index::new(1, 1));
    assert_eq!(Index::new(2, 3), Index::new(2, 3));
    assert_ne!(Index::new(2, 3), Index::new(2, 4));
    assert_ne!(Index::new(2, 3), Index::new(3, 3));
    let mut handles = vec![Index::new(1, 1), Index::new(0, 7), Index::new(1, 0)];
    handles.sort();
    assert_eq!(handles, vec![Index::new(0, 7), Index::new(1, 0), Index::new(1, 1)]);
}
