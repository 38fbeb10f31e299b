//! A generational arena: a growable array of slots that hands out handles made
//! of a slot index and a generation.
//!
//! The generation is kept in each slot and grows by one each time the slot's
//! value is removed, so it grows with the removals of that slot alone. A handle
//! is live while its slot is occupied at the handle's generation; once the
//! value is removed no later occupant of the slot ever answers to it.

use vstd::prelude::*;

mod iter;
mod laws;
mod model;
mod raw;

pub use iter::{Iter, IterMut, ValuesMut};
pub use model::{
    chain_links, cleared_slots, fresh_slots, index_run, is_free_list, lemma_chain_unique, lemma_occupied_count_all_free,
    lemma_occupied_count_bound, lemma_occupied_count_concat, lemma_occupied_count_update, lemma_occupied_from_count,
    lemma_occupied_from_frame, lemma_same_shape_count, lemma_same_shape_free_list, occupied_count, occupied_from,
    raw_wf, same_shape, stored_generation,
};
pub use raw::check_raw;

use model::lemma_same_shape_wf;

verus! {

/// One slot of the arena.
///
/// A free slot remembers the generation that its next occupant will get and
/// the slot that follows it on the free list. An occupied slot carries its
/// generation and its value.
#[derive(Debug)]
pub enum Entry<T> {
    Free { next_generation: u64, next_free: Option<usize> },
    Occupied { generation: u64, value: T },
}

/// A handle: a slot index and the generation the slot had when it was issued.
#[derive(Clone, Copy, PartialEq, Eq, Structural, PartialOrd, Ord, Hash, Debug)]
pub struct Index {
    pub index: usize,
    pub generation: u64,
}

/// A growable array of slots, each free or occupied by a value, with the
/// free slots on a list. Its view is the slots in index order.
#[derive(Debug)]
pub struct GenArena<T> {
    pub(crate) entries: Vec<Entry<T>>,
    /// Head of the free list. The free slots form a singly linked list, so
    /// they need not be in index order.
    pub(crate) next_free: Option<usize>,
    /// The number of occupied slots.
    pub(crate) length: usize,
}

/// The number of slots of a new arena.
pub const DEFAULT_ARENA_CAPACITY: usize = 32;

/// The least number of slots that a full arena grows by.
pub const MIN_RESERVE: usize = 8;

impl Index {
    /// The handle of the slot `index` at `generation`.
    pub fn new(index: usize, generation: u64) -> (r: Self)
        ensures
            r == (Index { index, generation }),
    {
        Index { index, generation }
    }
}

impl<T> Entry<T> {
    /// Applies `f` to the value of an occupied slot; a free slot stays as it is.
    pub fn map<U, F>(self, f: F) -> (r: Entry<U>) where F: FnOnce(T) -> U
        requires
            self matches Entry::Occupied { value, .. } ==> call_requires(f, (value,)),
        ensures
            match self {
                Entry::Free { next_generation, next_free } => r == (Entry::<U>::Free {
                    next_generation,
                    next_free,
                }),
                Entry::Occupied { generation, value } => r matches Entry::Occupied {
                    generation: g,
                    value: u,
                } && g == generation && call_ensures(f, (value,), u),
            },
    {
        match self {
            Entry::Free { next_generation, next_free } => Entry::Free { next_generation, next_free },
            Entry::Occupied { generation, value } => Entry::Occupied { generation, value: f(value) },
        }
    }

    /// The same slot, holding a reference to the value in place of the value.
    pub fn as_ref(&self) -> (r: Entry<&T>)
        ensures
            match *self {
                Entry::Free { next_generation, next_free } => r == (Entry::<&T>::Free {
                    next_generation,
                    next_free,
                }),
                Entry::Occupied { generation, value } => r == (Entry::<&T>::Occupied {
                    generation,
                    value: &value,
                }),
            },
    {
        match self {
            Entry::Free { next_generation, next_free } => Entry::Free {
                next_generation: *next_generation,
                next_free: *next_free,
            },
            Entry::Occupied { generation, value } => Entry::Occupied { generation: *generation, value },
        }
    }
}

impl<T> GenArena<T> {
    /// The slots, in index order.
    pub closed spec fn view(&self) -> Seq<Entry<T>> {
        self.entries@
    }

    /// The head of the free list.
    pub closed spec fn head(&self) -> Option<usize> {
        self.next_free
    }

    /// The number of values that `len` returns.
    pub closed spec fn spec_len(&self) -> usize {
        self.length
    }

    /// The free slots in the order in which `push` will hand them out.
    pub open spec fn free_list(&self) -> Seq<usize> {
        choose|chain: Seq<usize>| is_free_list(self@, self.head(), chain)
    }

    /// The arena's invariant: the free links trace a list that visits each
    /// free slot once, and the length counts the occupied slots.
    pub open spec fn wf(&self) -> bool {
        &&& is_free_list(self@, self.head(), self.free_list())
        &&& self.spec_len() == occupied_count(self@)
    }

    /// `index` names an occupied slot at the slot's generation.
    pub open spec fn live(&self, index: Index) -> bool {
        &&& index.index < self@.len()
        &&& self@[index.index as int] matches Entry::Occupied { generation, .. }
        &&& generation == index.generation
    }

    /// The value that a live handle names.
    pub open spec fn value_of(&self, index: Index) -> T
        recommends
            self.live(index),
    {
        self@[index.index as int]->value
    }

    /// `index` names a slot whose generation has moved past the handle's: its
    /// value was removed.
    pub open spec fn retired(&self, index: Index) -> bool {
        &&& index.index < self@.len()
        &&& index.generation < stored_generation(self@[index.index as int])
    }

    /// The handle that the next `push` returns.
    pub open spec fn next_handle(&self) -> Index {
        match self.head() {
            Some(i) => Index { index: i, generation: stored_generation(self@[i as int]) },
            None => Index { index: self@.len() as usize, generation: 0 },
        }
    }

    /// The number of slots that `push` adds to a full arena of `capacity` slots.
    pub open spec fn growth(capacity: int) -> int {
        if capacity > MIN_RESERVE {
            capacity
        } else {
            MIN_RESERVE as int
        }
    }

    /// `post` is this arena after `reserve_exact(added_capacity)`.
    pub open spec fn reserves(&self, added_capacity: int, post: &Self) -> bool {
        &&& post@ == self@ + fresh_slots(self@.len() as int, added_capacity, self.head())
        &&& post.head() == Some(self@.len() as usize)
        &&& post.spec_len() == self.spec_len()
    }

    /// `post` is this arena after `push(value)`.
    pub open spec fn pushes(&self, value: T, post: &Self) -> bool {
        let handle = self.next_handle();
        let slot = Entry::Occupied { generation: handle.generation, value };
        &&& post.spec_len() == self.spec_len() + 1
        &&& match self.head() {
            Some(i) => {
                &&& post@ == self@.update(i as int, slot)
                &&& post.head() == self@[i as int]->next_free
            },
            None => {
                let n = self@.len() as int;
                &&& post@ == (self@ + fresh_slots(n, Self::growth(n), None)).update(n, slot)
                &&& post.head() == Some((n + 1) as usize)
            },
        }
    }

    /// `post` is this arena after `remove(index)`.
    pub open spec fn removes(&self, index: Index, post: &Self) -> bool {
        if self.live(index) {
            &&& post@ == self@.update(
                index.index as int,
                Entry::Free { next_generation: (index.generation + 1) as u64, next_free: self.head() },
            )
            &&& post.head() == Some(index.index)
            &&& post.spec_len() == self.spec_len() - 1
        } else {
            &&& post@ == self@
            &&& post.head() == self.head()
            &&& post.spec_len() == self.spec_len()
        }
    }

    /// A chain that is a free list of this arena is its free list.
    pub proof fn lemma_free_list_is(&self, chain: Seq<usize>)
        requires
            is_free_list(self@, self.head(), chain),
        ensures
            self.free_list() == chain,
            is_free_list(self@, self.head(), self.free_list()),
    {
        reveal(is_free_list);
        lemma_chain_unique(self@, self.head(), self.free_list(), chain);
    }

    /// The head of the free list is its first slot, and that slot is free.
    pub proof fn lemma_head(&self)
        requires
            self.wf(),
        ensures
            self.head() is Some <==> self.free_list().len() > 0,
            self.head() matches Some(i) ==> self.free_list()[0] == i && i < self@.len() && self@[i as int] is Free,
            self@.len() <= usize::MAX,
    {
        reveal(is_free_list);
        if self.free_list().len() > 0 {
            let _ = self.free_list()[0];
        }
        assert(self.entries.len() == self@.len());
    }

    /// An arena of 32 free slots.
    pub fn new() -> (arena: Self)
        ensures
            arena.wf(),
            arena@ == fresh_slots::<T>(0, DEFAULT_ARENA_CAPACITY as int, None),
            arena.head() == Some(0usize),
            arena.spec_len() == 0,
    {
        Self::with_capacity(DEFAULT_ARENA_CAPACITY)
    }

    /// An arena of `capacity` free slots, which are handed out in index
    /// order.
    pub fn with_capacity(capacity: usize) -> (arena: Self)
        ensures
            arena.wf(),
            arena@ == fresh_slots::<T>(0, capacity as int, None),
            arena.head() == (if capacity > 0 { Some(0usize) } else { None }),
            arena.spec_len() == 0,
            arena.free_list() == index_run(0, capacity as int),
    {
        let mut arena = GenArena { entries: Vec::new(), next_free: None, length: 0 };
        proof {
            assert(is_free_list(arena@, arena.head(), Seq::<usize>::empty())) by {
                reveal(is_free_list);
            }
            arena.lemma_free_list_is(Seq::empty());
        }
        if capacity > 0 {
            arena.reserve_exact(capacity);
            assert(arena@ =~= fresh_slots::<T>(0, capacity as int, None));
            assert(arena.free_list() =~= index_run(0, capacity as int));
        } else {
            assert(arena@ =~= fresh_slots::<T>(0, capacity as int, None));
            assert(arena.free_list() =~= index_run(0, capacity as int));
        }
        arena
    }

    /// Appends `added_capacity` free slots in front of the free list and
    /// returns the index of the first of them, the new head.
    #[verifier::rlimit(30)]
    fn internal_reserve_exact(&mut self, added_capacity: usize) -> (start: usize)
        requires
            old(self).wf(),
            added_capacity > 0,
            old(self)@.len() + added_capacity <= usize::MAX,
        ensures
            final(self).wf(),
            start == old(self)@.len(),
            old(self).reserves(added_capacity as int, final(self)),
            final(self).free_list() == index_run(start as int, added_capacity as int) + old(self).free_list(),
    {
        self.entries.reserve(added_capacity);
        let reserve_start = self.entries.len();
        let ghost fresh = fresh_slots::<T>(reserve_start as int, added_capacity as int, self.next_free);
        let mut i: usize = 0;
        while i < added_capacity - 1
            invariant
                added_capacity > 0,
                i <= added_capacity - 1,
                reserve_start + added_capacity <= usize::MAX,
                reserve_start == old(self).entries@.len(),
                self.next_free == old(self).next_free,
                self.length == old(self).length,
                fresh == fresh_slots::<T>(reserve_start as int, added_capacity as int, self.next_free),
                self.entries@ =~= old(self).entries@ + fresh.subrange(0, i as int),
            decreases added_capacity - 1 - i,
        {
            self.entries.push(Entry::Free { next_generation: 0, next_free: Some(reserve_start + i + 1) });
            i += 1;
        }
        self.entries.push(Entry::Free { next_generation: 0, next_free: self.next_free });
        self.next_free = Some(reserve_start);
        proof {
            reveal(is_free_list);
            let chain = index_run(reserve_start as int, added_capacity as int) + old(self).free_list();
            let before = old(self)@;
            assert(self@ =~= before + fresh);
            assert forall|k: int| 0 <= k < chain.len() implies {
                &&& (#[trigger] chain[k]) < self@.len()
                &&& self@[chain[k] as int] is Free
                &&& self@[chain[k] as int]->next_free == (if k + 1 < chain.len() {
                    Some(chain[k + 1])
                } else {
                    None
                })
            } by {
                if k >= added_capacity {
                    let _ = old(self).free_list()[k - added_capacity];
                }
            }
            assert forall|a: int, b: int| 0 <= a < chain.len() && 0 <= b < chain.len() && a != b implies chain[a]
                != chain[b] by {
                if a >= added_capacity {
                    let _ = old(self).free_list()[a - added_capacity];
                }
                if b >= added_capacity {
                    let _ = old(self).free_list()[b - added_capacity];
                }
            }
            assert forall|j: int| 0 <= j < self@.len() && (#[trigger] self@[j]) is Free implies chain.contains(
                j as usize,
            ) by {
                if j < reserve_start {
                    assert(before[j] is Free);
                    let w = choose|w: int|
                        0 <= w < old(self).free_list().len() && old(self).free_list()[w] == j as usize;
                    assert(chain[w + added_capacity] == j as usize);
                } else {
                    assert(chain[j - reserve_start] == j as usize);
                }
            }
            self.lemma_free_list_is(chain);
            lemma_occupied_count_concat(before, fresh);
            lemma_occupied_count_all_free(fresh);
        }
        reserve_start
    }

    /// Adds `added_capacity` free slots.
    pub fn reserve_exact(&mut self, added_capacity: usize)
        requires
            old(self).wf(),
            added_capacity > 0,
            old(self)@.len() + added_capacity <= usize::MAX,
        ensures
            final(self).wf(),
            old(self).reserves(added_capacity as int, final(self)),
            final(self).free_list() == index_run(old(self)@.len() as int, added_capacity as int) + old(self).free_list(),
    {
        self.internal_reserve_exact(added_capacity);
    }

    /// The number of values in the arena.
    pub fn len(&self) -> (n: usize)
        ensures
            n == self.spec_len(),
    {
        self.length
    }

    /// Whether the arena holds no value.
    pub fn is_empty(&self) -> (r: bool)
        ensures
            r == (self.spec_len() == 0),
    {
        self.length == 0
    }

    /// The number of slots, free and occupied.
    pub fn capacity(&self) -> (n: usize)
        ensures
            n == self@.len(),
    {
        self.entries.len()
    }

    /// Whether `index` is live.
    pub fn contains(&self, index: Index) -> (r: bool)
        ensures
            r == self.live(index),
    {
        self.get(index).is_some()
    }

    /// The value that `index` names, if it is live.
    pub fn get(&self, index: Index) -> (r: Option<&T>)
        ensures
            r == (if self.live(index) {
                Some(&self.value_of(index))
            } else {
                None
            }),
    {
        if index.index < self.entries.len() {
            match &self.entries[index.index] {
                Entry::Occupied { generation, value } => {
                    if *generation != index.generation {
                        None
                    } else {
                        Some(value)
                    }
                },
                Entry::Free { .. } => None,
            }
        } else {
            None
        }
    }

    /// The value and generation of the slot at `index`, if it is occupied.
    pub fn get_raw(&self, index: usize) -> (r: Option<(&T, u64)>)
        ensures
            r == (if index < self@.len() && self@[index as int] is Occupied {
                Some((&self@[index as int]->value, self@[index as int]->generation))
            } else {
                None
            }),
    {
        if index < self.entries.len() {
            match &self.entries[index] {
                Entry::Occupied { generation, value } => Some((value, *generation)),
                Entry::Free { .. } => None,
            }
        } else {
            None
        }
    }

    /// The value that `index` names for writing, if it is live.
    pub fn get_mut(&mut self, index: Index) -> (r: Option<&mut T>)
        ensures
            final(self).head() == old(self).head(),
            final(self).spec_len() == old(self).spec_len(),
            old(self).wf() ==> final(self).wf(),
            match r {
                Some(value) => {
                    &&& old(self).live(index)
                    &&& *value == old(self).value_of(index)
                    &&& final(self)@ == old(self)@.update(
                        index.index as int,
                        Entry::Occupied { generation: index.generation, value: *final(value) },
                    )
                },
                None => !old(self).live(index) && final(self)@ == old(self)@,
            },
    {
        if !self.contains(index) {
            return None;
        }
        match self.get_raw_mut(index.index) {
            Some((value, _)) => Some(value),
            None => None,
        }
    }

    /// The value and generation of the slot at `index`, if it is occupied.
    pub fn get_raw_mut(&mut self, index: usize) -> (r: Option<(&mut T, u64)>)
        ensures
            final(self).head() == old(self).head(),
            final(self).spec_len() == old(self).spec_len(),
            old(self).wf() ==> final(self).wf(),
            match r {
                Some((value, generation)) => {
                    &&& index < old(self)@.len()
                    &&& old(self)@[index as int] == (Entry::Occupied { generation, value: *value })
                    &&& final(self)@ == old(self)@.update(
                        index as int,
                        Entry::Occupied { generation, value: *final(value) },
                    )
                },
                None => !(index < old(self)@.len() && old(self)@[index as int] is Occupied) && final(self)@ == old(self)@,
            },
    {
        let occupied = index < self.entries.len() && match &self.entries[index] {
            Entry::Occupied { .. } => true,
            Entry::Free { .. } => false,
        };
        if !occupied {
            return None;
        }
        let ghost before = *self;
        match &mut self.entries[index] {
            Entry::Occupied { generation, value } => {
                let g = *generation;
                proof {
                    let after = before@.update(index as int, Entry::Occupied { generation: g, value: *final(value) });
                    lemma_same_shape_wf(before@, after, before.head());
                }
                Some((value, g))
            },
            Entry::Free { .. } => None,
        }
    }

    /// Occupies the slot at the head of the free list.
    fn force_insert_at(&mut self, index: usize, value: T) -> (idx: Index)
        requires
            old(self).wf(),
            old(self).head() == Some(index),
        ensures
            final(self).wf(),
            idx == old(self).next_handle(),
            old(self).pushes(value, final(self)),
            final(self).free_list() == old(self).free_list().drop_first(),
    {
        proof {
            self.lemma_head();
            lemma_occupied_count_update(
                self@,
                index as int,
                Entry::Occupied { generation: stored_generation(self@[index as int]), value },
            );
            lemma_occupied_count_bound(
                self@.update(
                    index as int,
                    Entry::Occupied { generation: stored_generation(self@[index as int]), value },
                ),
            );
        }
        let (next_generation, next_free) = match &self.entries[index] {
            Entry::Free { next_generation, next_free } => (*next_generation, *next_free),
            Entry::Occupied { .. } => vstd::pervasive::unreached(),
        };
        self.entries[index] = Entry::Occupied { generation: next_generation, value };
        self.next_free = next_free;
        self.length += 1;
        proof {
            reveal(is_free_list);
            let before = old(self).free_list();
            let chain = before.drop_first();
            assert forall|k: int| 0 <= k < chain.len() implies {
                &&& (#[trigger] chain[k]) < self@.len()
                &&& self@[chain[k] as int] is Free
                &&& self@[chain[k] as int]->next_free == (if k + 1 < chain.len() {
                    Some(chain[k + 1])
                } else {
                    None
                })
            } by {
                let _ = before[k + 1];
            }
            assert forall|j: int| 0 <= j < self@.len() && (#[trigger] self@[j]) is Free implies chain.contains(
                j as usize,
            ) by {
                assert(old(self)@[j] is Free);
                assert(before[0] == index);
                let w = choose|w: int| 0 <= w < before.len() && before[w] == j as usize;
                assert(chain[w - 1] == j as usize);
            }
            self.lemma_free_list_is(chain);
        }
        Index { index, generation: next_generation }
    }

    /// Stores `value` in the slot at the head of the free list, after growing
    /// the arena if the list is empty, and returns the value's handle.
    pub fn push(&mut self, value: T) -> (idx: Index)
        requires
            old(self).wf(),
            old(self).head() is None ==> old(self)@.len() + Self::growth(old(self)@.len() as int)
                <= usize::MAX,
        ensures
            final(self).wf(),
            idx == old(self).next_handle(),
            old(self).pushes(value, final(self)),
            !old(self).live(idx) && !old(self).retired(idx),
            final(self).live(idx) && final(self).value_of(idx) == value,
            final(self).free_list() == (if old(self).head() is Some {
                old(self).free_list().drop_first()
            } else {
                index_run(old(self)@.len() as int + 1, Self::growth(old(self)@.len() as int) - 1)
            }),
    {
        match self.next_free {
            Some(next_free) => {
                proof {
                    self.lemma_head();
                }
                self.force_insert_at(next_free, value)
            },
            None => {
                let capacity = self.entries.len();
                let added = if capacity > MIN_RESERVE {
                    capacity
                } else {
                    MIN_RESERVE
                };
                proof {
                    self.lemma_head();
                }
                let next_free = self.internal_reserve_exact(added);
                let ghost mid = *self;
                let idx = self.force_insert_at(next_free, value);
                proof {
                    assert(old(self).free_list().len() == 0);
                    assert(mid.free_list() =~= index_run(capacity as int, added as int));
                    assert(mid@[capacity as int] == fresh_slots::<T>(capacity as int, added as int, None)[0]);
                    assert(self.free_list() =~= index_run(capacity as int + 1, added as int - 1));
                }
                idx
            },
        }
    }

    /// Takes the value of a live handle out of the arena. The slot becomes
    /// the head of the free list and its generation grows by one. A handle
    /// that is not live leaves the arena as it is.
    pub fn remove(&mut self, index: Index) -> (r: Option<T>)
        requires
            old(self).wf(),
            old(self).live(index) ==> index.generation < u64::MAX,
        ensures
            final(self).wf(),
            old(self).removes(index, final(self)),
            r == (if old(self).live(index) {
                Some(old(self).value_of(index))
            } else {
                None
            }),
            !final(self).live(index),
            old(self).live(index) ==> final(self).retired(index),
            final(self).free_list() == (if old(self).live(index) {
                seq![index.index] + old(self).free_list()
            } else {
                old(self).free_list()
            }),
    {
        if !self.contains(index) {
            return None;
        }
        let mut removed = Entry::Free { next_generation: index.generation + 1, next_free: self.next_free };
        proof {
            lemma_occupied_count_update(self@, index.index as int, removed);
        }
        std::mem::swap(&mut self.entries[index.index], &mut removed);
        self.next_free = Some(index.index);
        self.length -= 1;
        proof {
            reveal(is_free_list);
            let before = old(self).free_list();
            let chain = seq![index.index] + before;
            assert forall|k: int| 0 <= k < chain.len() implies {
                &&& (#[trigger] chain[k]) < self@.len()
                &&& self@[chain[k] as int] is Free
                &&& self@[chain[k] as int]->next_free == (if k + 1 < chain.len() {
                    Some(chain[k + 1])
                } else {
                    None
                })
            } by {
                if k > 0 {
                    let _ = before[k - 1];
                }
                if before.len() > 0 {
                    let _ = before[0];
                }
            }
            assert forall|a: int, b: int| 0 <= a < chain.len() && 0 <= b < chain.len() && a != b implies chain[a]
                != chain[b] by {
                if a > 0 {
                    let _ = before[a - 1];
                }
                if b > 0 {
                    let _ = before[b - 1];
                }
            }
            assert forall|j: int| 0 <= j < self@.len() && (#[trigger] self@[j]) is Free implies chain.contains(
                j as usize,
            ) by {
                if j == index.index {
                    assert(chain[0] == j as usize);
                } else {
                    assert(old(self)@[j] is Free);
                    let w = choose|w: int| 0 <= w < before.len() && before[w] == j as usize;
                    assert(chain[w + 1] == j as usize);
                }
            }
            self.lemma_free_list_is(chain);
        }
        match removed {
            Entry::Occupied { value, .. } => Some(value),
            Entry::Free { .. } => vstd::pervasive::unreached(),
        }
    }

    /// Frees every slot and links the slots in index order. The generation
    /// of each slot that was occupied grows by one, so that no handle issued
    /// before is ever live again.
    pub fn clear(&mut self)
        requires
            forall|i: int|
                0 <= i < old(self)@.len() && (#[trigger] old(self)@[i]) is Occupied ==> old(self)@[i]->generation
                    < u64::MAX,
        ensures
            final(self).wf(),
            final(self)@ == cleared_slots(old(self)@),
            final(self).head() == (if old(self)@.len() > 0 {
                Some(0usize)
            } else {
                None
            }),
            final(self).spec_len() == 0,
            final(self).free_list() == index_run(0, old(self)@.len() as int),
    {
        let n = self.entries.len();
        let mut i: usize = 0;
        while i < n
            invariant
                i <= n,
                n == old(self).entries@.len(),
                self.entries@.len() == n,
                forall|j: int| 0 <= j < i ==> self.entries@[j] == cleared_slots(old(self).entries@)[j],
                forall|j: int| i <= j < n ==> self.entries@[j] == old(self).entries@[j],
                forall|j: int|
                    0 <= j < n && (#[trigger] old(self)@[j]) is Occupied ==> old(self)@[j]->generation < u64::MAX,
            decreases n - i,
        {
            assert(old(self)@[i as int] == self.entries@[i as int]);
            let next_generation = match &self.entries[i] {
                Entry::Free { next_generation, .. } => *next_generation,
                Entry::Occupied { generation, .. } => *generation + 1,
            };
            let next_free = if i + 1 < n {
                Some(i + 1)
            } else {
                None
            };
            self.entries[i] = Entry::Free { next_generation, next_free };
            i += 1;
        }
        self.length = 0;
        self.next_free = if n > 0 {
            Some(0)
        } else {
            None
        };
        proof {
            reveal(is_free_list);
            assert(self@ =~= cleared_slots(old(self)@));
            let chain = index_run(0, n as int);
            assert forall|j: int| 0 <= j < self@.len() && (#[trigger] self@[j]) is Free implies chain.contains(
                j as usize,
            ) by {
                assert(chain[j] == j as usize);
            }
            self.lemma_free_list_is(chain);
            lemma_occupied_count_all_free(self@);
        }
    }

    /// The handles and values of the occupied slots, in index order.
    pub open spec fn items(&self) -> Seq<(Index, T)> {
        occupied_from(self@, 0)
    }

    /// Writing to values keeps the arena's invariant and its free list.
    pub proof fn lemma_same_shape(&self, post: &Self)
        requires
            self.wf(),
            same_shape(self@, post@),
            post.head() == self.head(),
            post.spec_len() == self.spec_len(),
        ensures
            post.wf(),
            post.free_list() == self.free_list(),
            forall|index: Index| self.live(index) == post.live(index),
            forall|index: Index| self.retired(index) == post.retired(index),
    {
        lemma_same_shape_wf(self@, post@, self.head());
        assert forall|index: Index| self.live(index) == post.live(index) by {
            if index.index < self@.len() {
                let _ = self@[index.index as int];
            }
        }
        assert forall|index: Index| self.retired(index) == post.retired(index) by {
            if index.index < self@.len() {
                let _ = self@[index.index as int];
            }
        }
    }

    /// Builds an arena from its parts: the slots, the number of occupied
    /// slots and the head of the free list. The parts must be those of a
    /// well-formed arena; `try_from_raw` builds an arena from any parts that
    /// are.
    pub fn from_raw(entries: Vec<Entry<T>>, length: usize, next_free: Option<usize>) -> (arena: Self)
        requires
            raw_wf(entries@, length, next_free),
        ensures
            arena.wf(),
            arena@ == entries@,
            arena.head() == next_free,
            arena.spec_len() == length,
    {
        let arena = Self { entries, length, next_free };
        proof {
            let chain = choose|chain: Seq<usize>| is_free_list(arena@, arena.head(), chain);
            arena.lemma_free_list_is(chain);
        }
        arena
    }

    /// Builds an arena from its parts where they are those of a well-formed
    /// arena: the free links trace a list from `next_free` that visits each
    /// free slot once, and `length` counts the occupied slots.
    pub fn try_from_raw(entries: Vec<Entry<T>>, length: usize, next_free: Option<usize>) -> (r: Option<Self>)
        ensures
            r is Some == raw_wf(entries@, length, next_free),
            r matches Some(arena) ==> arena.wf() && arena@ == entries@ && arena.head() == next_free
                && arena.spec_len() == length,
    {
        if check_raw(&entries, length, next_free) {
            Some(Self::from_raw(entries, length, next_free))
        } else {
            None
        }
    }

    /// The slots, in index order.
    pub fn entries(&self) -> (entries: &[Entry<T>])
        ensures
            entries@ == self@,
    {
        self.entries.as_slice()
    }

    /// The head of the free list.
    pub fn next_free(&self) -> (head: Option<usize>)
        ensures
            head == self.head(),
    {
        self.next_free
    }

    /// An iterator over the handles and values of the occupied slots, in
    /// index order.
    pub fn iter(&self) -> (it: Iter<'_, T>)
        requires
            self.wf(),
        ensures
            it.wf(),
            it.slots() == self@,
            it.position() == 0,
            it@ == self.items(),
    {
        Iter::new(self.entries.as_slice(), self.length)
    }

    /// An iterator over the handles of the occupied slots, in index order,
    /// which lends each value for writing.
    pub fn iter_mut(&mut self) -> (it: IterMut<'_, T>)
        requires
            old(self).wf(),
        ensures
            it.wf(),
            it.slots() == old(self)@,
            it.position() == 0,
            it@ == old(self).items(),
            final(self)@ == final(it.entries)@,
            final(self).head() == old(self).head(),
            final(self).spec_len() == old(self).spec_len(),
    {
        let tot_length = self.length;
        IterMut::new(self.entries.as_mut_slice(), tot_length)
    }

    /// The values of the occupied slots, in index order.
    pub fn values(&self) -> (values: Vec<&T>)
        requires
            self.wf(),
        ensures
            values@.len() == self.items().len(),
            forall|k: int| 0 <= k < values@.len() ==> *(#[trigger] values@[k]) == self.items()[k].1,
    {
        let mut values: Vec<&T> = Vec::new();
        let mut it = self.iter();
        loop
            invariant
                it.wf(),
                values@.len() <= self.items().len(),
                it@ =~= self.items().subrange(values@.len() as int, self.items().len() as int),
                forall|k: int| 0 <= k < values@.len() ==> *(#[trigger] values@[k]) == self.items()[k].1,
            ensures
                values@.len() == self.items().len(),
                forall|k: int| 0 <= k < values@.len() ==> *(#[trigger] values@[k]) == self.items()[k].1,
            decreases it@.len(),
        {
            match it.next() {
                Some((_, value)) => {
                    values.push(value);
                },
                None => {
                    break ;
                },
            }
        }
        values
    }

    /// An iterator over the values of the occupied slots, in index order,
    /// which lends each for writing.
    pub fn values_mut(&mut self) -> (it: ValuesMut<'_, T>)
        requires
            old(self).wf(),
        ensures
            it.inner.wf(),
            it.inner.slots() == old(self)@,
            it.inner.position() == 0,
            it.inner@ == old(self).items(),
            final(self)@ == final(it.inner.entries)@,
            final(self).head() == old(self).head(),
            final(self).spec_len() == old(self).spec_len(),
    {
        ValuesMut { inner: self.iter_mut() }
    }
}

impl<T> Default for GenArena<T> {
    /// An arena of 32 free slots.
    fn default() -> (arena: Self)
        ensures
            arena.wf(),
            arena@ == fresh_slots::<T>(0, DEFAULT_ARENA_CAPACITY as int, None),
            arena.head() == Some(0usize),
            arena.spec_len() == 0,
    {
        Self::new()
    }
}

impl<T: Clone> Clone for Entry<T> {
    /// The same slot with the value cloned.
    fn clone(&self) -> (r: Self)
        ensures
            match *self {
                Entry::Free { next_generation, next_free } => r == (Entry::<T>::Free {
                    next_generation,
                    next_free,
                }),
                Entry::Occupied { generation, value } => r matches Entry::Occupied {
                    generation: g,
                    value: v,
                } && g == generation && cloned::<T>(value, v),
            },
    {
        match self {
            Entry::Free { next_free, next_generation } => Entry::Free {
                next_free: *next_free,
                next_generation: *next_generation,
            },
            Entry::Occupied { generation, value } => Entry::Occupied {
                generation: *generation,
                value: value.clone(),
            },
        }
    }

    /// Makes this slot the same as `other`, with the value cloned.
    fn clone_from(&mut self, other: &Self)
        ensures
            match *other {
                Entry::Free { next_generation, next_free } => *final(self) == (Entry::<T>::Free {
                    next_generation,
                    next_free,
                }),
                Entry::Occupied { generation, value } => *final(self) matches Entry::Occupied {
                    generation: g,
                    value: v,
                } && g == generation && cloned::<T>(value, v),
            },
    {
        *self = other.clone();
    }
}

impl<T: Clone> Clone for GenArena<T> {
    /// A copy with the same slots, free list and length, each value cloned.
    fn clone(&self) -> (r: Self)
        ensures
            r.head() == self.head(),
            r.spec_len() == self.spec_len(),
            same_shape(self@, r@),
            forall|i: int|
                0 <= i < self@.len() && (#[trigger] self@[i]) is Occupied ==> cloned::<T>(
                    self@[i]->value,
                    r@[i]->value,
                ),
            self.wf() ==> r.wf(),
    {
        let mut entries: Vec<Entry<T>> = Vec::new();
        let n = self.entries.len();
        let mut i: usize = 0;
        while i < n
            invariant
                i <= n,
                n == self.entries@.len(),
                entries@.len() == i,
                same_shape(self.entries@.take(i as int), entries@),
                forall|j: int|
                    0 <= j < i && (#[trigger] self.entries@[j]) is Occupied ==> cloned::<T>(
                        self.entries@[j]->value,
                        entries@[j]->value,
                    ),
            decreases n - i,
        {
            let e = self.entries[i].clone();
            entries.push(e);
            i += 1;
            proof {
                assert forall|j: int| 0 <= j < i implies match #[trigger] self.entries@.take(i as int)[j] {
                    Entry::Free { next_generation, next_free } => entries@[j] == (Entry::<T>::Free {
                        next_generation,
                        next_free,
                    }),
                    Entry::Occupied { generation, .. } => entries@[j] is Occupied && entries@[j]->generation
                        == generation,
                } by {
                    if j < i - 1 {
                        let _ = self.entries@.take(i - 1)[j];
                    }
                }
            }
        }
        let r = Self { entries, next_free: self.next_free, length: self.length };
        proof {
            assert(self.entries@.take(n as int) =~= self.entries@);
            if self.wf() {
                self.lemma_same_shape(&r);
            }
        }
        r
    }

    /// Makes this arena a copy of `other`: the same slots, free list and
    /// length, each value cloned.
    fn clone_from(&mut self, other: &Self)
        ensures
            final(self).head() == other.head(),
            final(self).spec_len() == other.spec_len(),
            same_shape(other@, final(self)@),
            forall|i: int|
                0 <= i < other@.len() && (#[trigger] other@[i]) is Occupied ==> cloned::<T>(
                    other@[i]->value,
                    final(self)@[i]->value,
                ),
            other.wf() ==> final(self).wf(),
    {
        *self = other.clone();
    }
}

} // verus!
