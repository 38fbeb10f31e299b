//! The collection of records: a generational arena of pooled records, the
//! pools of their payloads, and for each attachment type the bit set of the
//! slots whose record carries it.

use crate::bitset::{
    bitset_add, bitset_with_capacity, index_limit, max_index, members, presence_clone, presence_insert,
    presence_new, presence_of, presence_remove, PresenceMap,
};
use crate::component_storage::ComponentsStorage;
use crate::entity::{EntityBase, EntityOwnedBase, EntityRefBase, RefComponent};
use crate::genarena::{fresh_slots, same_shape, Entry, GenArena, Index, DEFAULT_ARENA_CAPACITY};
use crate::pooled::{Pooled, PooledMut};
use crate::presence::{flag, lemma_flagged, mark, mark_one, unmark, unmark_one};
use std::any::TypeId;
use vstd::prelude::*;

mod upkeep;

verus! {

/// The handle of a record.
pub type EntityId = Index;

/// The number of indices that the bit sets of a new collection have room for.
pub const DEFAULT_BITSET_CAPACITY: u32 = 4096;

/// A collection of records of one schema.
///
/// Insertion and removal take constant time but for growth. Iteration over
/// the records that carry given attachment types looks at the bit sets of
/// those types only. A removed record's handle is never valid again; its
/// slot is used again.
pub struct EntityList<E: EntityRefBase> {
    pub(crate) bitsets: PresenceMap,
    pub(crate) entities: GenArena<E>,
    pub(crate) components_storage: E::CS,
}

/// `id` is an attachment type of the schema of `E`.
pub open spec fn in_schema<E: EntityBase>(id: TypeId) -> bool {
    exists|k: usize| k < E::schema_len() && #[trigger] E::schema_id(k) == id
}

/// The schema of `E`, as a sequence.
pub open spec fn schema_of<E: EntityBase>() -> Seq<TypeId> {
    Seq::new(E::schema_len() as nat, |k: int| E::schema_id(k as usize))
}

/// The pools hold a payload behind each handle of `entity`.
pub open spec fn held<E: EntityRefBase>(entity: &E, cs: &E::CS) -> bool {
    forall|id: TypeId, key: usize| entity.handle(id) == Some(key) ==> #[trigger] cs.holds(id, key)
}

/// The payload of type `C` that the pooled record `entity` carries.
pub open spec fn pooled_payload<E: EntityRefBase, C: RefComponent<E>>(entity: &E, cs: &E::CS) -> Option<C> {
    match entity.handle(C::id()) {
        Some(key) => if C::pool(cs)@.contains_key(key) {
            Some(C::pool(cs)@[key])
        } else {
            None
        },
        None => None,
    }
}

/// Two arenas have the same slots, free list head and length.
pub open spec fn same_arena<T>(a: &GenArena<T>, b: &GenArena<T>) -> bool {
    a@ == b@ && a.head() == b.head() && a.spec_len() == b.spec_len()
}

impl<E: EntityRefBase> EntityList<E> {
    /// The slot allocator with the pooled records.
    pub closed spec fn arena(&self) -> GenArena<E> {
        self.entities
    }

    /// The pools.
    pub closed spec fn storage(&self) -> E::CS {
        self.components_storage
    }

    /// The presence index: for each indexed attachment type, the indices of
    /// the slots that it marks.
    pub closed spec fn presence(&self) -> Map<TypeId, Set<u32>> {
        presence_of(self.bitsets)
    }

    /// The slot at index `i` holds a record.
    pub open spec fn occupied(&self, i: int) -> bool {
        0 <= i < self.arena()@.len() && self.arena()@[i] is Occupied
    }

    /// The record in the slot at index `i`.
    pub open spec fn record(&self, i: int) -> E
        recommends
            self.occupied(i),
    {
        self.arena()@[i]->value
    }

    /// The presence index has a bit set for the attachment type `id`.
    pub open spec fn indexed(&self, id: TypeId) -> bool {
        self.presence().contains_key(id)
    }

    /// The presence index marks slot `i` for the attachment type `id`.
    pub open spec fn marked(&self, id: TypeId, i: u32) -> bool {
        self.presence().contains_key(id) && self.presence()[id].contains(i)
    }

    /// `id` names a record of the collection.
    pub open spec fn live(&self, id: EntityId) -> bool {
        self.arena().live(id)
    }

    /// The bit sets mark occupied slots only.
    pub open spec fn marks_occupied(&self) -> bool {
        forall|id: TypeId, i: u32| #[trigger] self.marked(id, i) ==> self.occupied(i as int)
    }

    /// The pools hold a payload behind each handle of each record.
    pub open spec fn all_held(&self) -> bool {
        forall|i: int| #[trigger] self.occupied(i) ==> held(&self.record(i), &self.storage())
    }

    /// No two records share a handle.
    pub open spec fn exclusive(&self) -> bool {
        forall|i: int, j: int, id: TypeId|
            #![trigger self.record(i).handle(id), self.record(j).handle(id)]
            self.occupied(i) && self.occupied(j) && i != j && self.record(i).handle(id) is Some
                ==> self.record(i).handle(id) != self.record(j).handle(id)
    }

    /// The collection's invariant. The arena is well formed; there are bit
    /// sets for attachment types of the schema only; the bit sets mark
    /// occupied slots only; each occupied slot's index is one that
    /// a bit set can hold; the pools hold a payload behind each handle of
    /// each record, and no two records share a handle.
    pub open spec fn wf(&self) -> bool {
        &&& self.arena().wf()
        &&& forall|id: TypeId| #[trigger] self.indexed(id) ==> in_schema::<E>(id)
        &&& self.marks_occupied()
        &&& forall|i: int| #[trigger] self.occupied(i) ==> i < index_limit()
        &&& self.all_held()
        &&& self.exclusive()
    }

    /// Each attachment type of the schema has a bit set.
    pub open spec fn fully_indexed(&self) -> bool {
        forall|id: TypeId| in_schema::<E>(id) ==> #[trigger] self.indexed(id)
    }

    /// The presence index agrees with the record in slot `i`: it marks the
    /// slot for exactly the indexed attachment types that the record carries.
    pub open spec fn synced_at(&self, i: u32) -> bool {
        forall|id: TypeId|
            self.indexed(id) ==> (#[trigger] self.marked(id, i) <==> self.occupied(i as int) && self.record(
                i as int,
            ).carries(id))
    }

    /// The presence index agrees with every record.
    pub open spec fn synced(&self) -> bool {
        forall|i: u32| #[trigger] self.synced_at(i)
    }

    /// `insert` can take a record: the index of the slot that it goes to is
    /// one that a bit set can hold, and a full arena can grow.
    pub open spec fn has_room(&self) -> bool {
        &&& self.arena().next_handle().index < index_limit()
        &&& self.arena().head() is None ==> self.arena()@.len() + GenArena::<E>::growth(
            self.arena()@.len() as int,
        ) <= usize::MAX
    }

    /// `post` is this collection after `insert` has stored `owned` under
    /// `id`: the pooled record made of it has the same properties, carries
    /// the same attachment types and stands in the slot that the arena gave,
    /// the pools
    /// hold what they held and the record's payloads, each behind a handle
    /// that they did not hold, and the slot is marked for the indexed types
    /// that the record carries.
    pub open spec fn inserts(&self, owned: &E::Owned, post: &Self, id: EntityId) -> bool {
        let record = post.record(id.index as int);
        &&& id == self.arena().next_handle()
        &&& self.arena().pushes(record, &post.arena())
        &&& E::pooling(owned, &self.storage(), &record, &post.storage())
        &&& record.props() == owned.props()
        &&& forall|tid: TypeId| #[trigger] record.carries(tid) == owned.carries(tid)
        &&& forall|tid: TypeId, key: usize|
            #[trigger] post.storage().holds(tid, key) == (self.storage().holds(tid, key) || record.handle(tid)
                == Some(key))
        &&& forall|tid: TypeId, key: usize|
            record.handle(tid) == Some(key) ==> !#[trigger] self.storage().holds(tid, key)
        &&& forall|tid: TypeId| #[trigger] post.indexed(tid) == self.indexed(tid)
        &&& forall|tid: TypeId, i: u32|
            #[trigger] post.marked(tid, i) == (self.marked(tid, i) || (i == id.index && self.indexed(tid)
                && record.carries(tid)))
    }

    /// `post` is this collection after `remove(id)`. Where `id` names a
    /// record, its slot is free, the pools hold what they held but for the
    /// record's payloads, and the slot's marks for the types that the record
    /// carried are gone. Else nothing has changed.
    pub open spec fn removes(&self, id: EntityId, post: &Self) -> bool {
        let record = self.record(id.index as int);
        &&& self.arena().removes(id, &post.arena())
        &&& forall|tid: TypeId| #[trigger] post.indexed(tid) == self.indexed(tid)
        &&& forall|tid: TypeId, key: usize|
            #[trigger] post.storage().holds(tid, key) == (self.storage().holds(tid, key) && !(self.live(id)
                && record.handle(tid) == Some(key)))
        &&& forall|tid: TypeId, i: u32|
            #[trigger] post.marked(tid, i) == (self.marked(tid, i) && !(self.live(id) && i == id.index
                && record.carries(tid)))
    }

    /// `r` is what `remove(id)` returns where it leaves `post`: the detached
    /// record made of the record that `id` names, which has the same
    /// properties and carries the same attachment types; nothing where `id`
    /// names no record.
    pub open spec fn hands_back(&self, id: EntityId, post: &Self, r: Option<E::Owned>) -> bool {
        let record = self.record(id.index as int);
        match r {
            Some(owned) => {
                &&& self.live(id)
                &&& E::detaching(&record, &self.storage(), &owned, &post.storage())
                &&& owned.props() == record.props()
                &&& forall|tid: TypeId| #[trigger] owned.carries(tid) == record.carries(tid)
            },
            None => !self.live(id),
        }
    }

    /// `post` is this collection after `refresh(id)`. Where `id` names a
    /// record, its slot is marked for exactly the indexed types that the
    /// record carries. Nothing else has changed.
    pub open spec fn refreshes(&self, id: EntityId, post: &Self) -> bool {
        let record = self.record(id.index as int);
        &&& same_arena(&self.arena(), &post.arena())
        &&& post.storage() == self.storage()
        &&& forall|tid: TypeId| #[trigger] post.indexed(tid) == self.indexed(tid)
        &&& forall|tid: TypeId, i: u32|
            #[trigger] post.marked(tid, i) == (if self.live(id) && i == id.index && self.indexed(tid) {
                record.carries(tid)
            } else {
                self.marked(tid, i)
            })
    }

    /// A collection with no record, empty pools and an empty bit set for
    /// each attachment type of the schema.
    pub fn new() -> (list: Self)
        ensures
            list.wf(),
            list.synced(),
            list.arena()@ == fresh_slots::<E>(0, DEFAULT_ARENA_CAPACITY as int, None),
            list.arena().head() == Some(0usize),
            list.arena().spec_len() == 0,
            list.has_room(),
            list.fully_indexed(),
            forall|i: int| !list.occupied(i),
            forall|id: TypeId, i: u32| !list.marked(id, i),
            forall|id: TypeId, key: usize| !list.storage().holds(id, key),
    {
        let components_storage = E::CS::new();
        let mut list = EntityList { bitsets: presence_new(), entities: GenArena::new(), components_storage };
        proof {
            assert(list.presence() =~= Map::empty());
        }
        list.init_bitsets(None);
        proof {
            assert forall|id: TypeId, i: u32| !list.marked(id, i) by {
                if list.indexed(id) {
                    assert(list.presence()[id] == Set::<u32>::empty());
                }
            }
            assert(list.marks_occupied());
            assert(list.all_held());
            assert(list.exclusive());
            assert forall|i: u32| #[trigger] list.synced_at(i) by {}
        }
        list
    }

    /// Gives each attachment type of the schema an empty bit set with room
    /// for `capacity` indices, 4096 where none is given.
    pub(crate) fn init_bitsets(&mut self, capacity: Option<u32>)
        requires
            capacity matches Some(c) ==> c <= index_limit(),
        ensures
            final(self).arena() == old(self).arena(),
            final(self).storage() == old(self).storage(),
            forall|id: TypeId| #[trigger] final(self).indexed(id) <==> old(self).indexed(id) || in_schema::<E>(id),
            forall|id: TypeId|
                in_schema::<E>(id) ==> #[trigger] final(self).presence()[id] == Set::<u32>::empty(),
            forall|id: TypeId|
                !in_schema::<E>(id) && old(self).indexed(id) ==> #[trigger] final(self).presence()[id] == old(self).presence()[id],
    {
        let ids = E::for_all_components();
        let max = match capacity {
            Some(c) => c,
            None => DEFAULT_BITSET_CAPACITY,
        };
        let mut k: usize = 0;
        while k < ids.len()
            invariant
                k <= ids@.len(),
                max <= index_limit(),
                ids@.len() == E::schema_len(),
                forall|j: int| 0 <= j < ids@.len() ==> #[trigger] ids@[j] == E::schema_id(j as usize),
                self.entities == old(self).entities,
                self.components_storage == old(self).components_storage,
                forall|id: TypeId|
                    #[trigger] self.presence().contains_key(id) <==> old(self).presence().contains_key(id) || (
                    exists|j: int| 0 <= j < k && ids@[j] == id),
                forall|id: TypeId|
                    (exists|j: int| 0 <= j < k && ids@[j] == id) ==> #[trigger] self.presence()[id] == Set::<
                        u32,
                    >::empty(),
                forall|id: TypeId|
                    !(exists|j: int| 0 <= j < k && ids@[j] == id) && old(self).presence().contains_key(id)
                        ==> #[trigger] self.presence()[id] == old(self).presence()[id],
            decreases ids@.len() - k,
        {
            let ghost before = self.presence();
            let id = ids[k];
            presence_insert(&mut self.bitsets, id, bitset_with_capacity(max));
            proof {
                assert(self.presence() =~= before.insert(id, Set::<u32>::empty()));
            }
            k += 1;
        }
        proof {
            assert forall|id: TypeId| in_schema::<E>(id) <==> (exists|j: int|
                0 <= j < ids@.len() && ids@[j] == id) by {
                if in_schema::<E>(id) {
                    let w = choose|w: usize| w < E::schema_len() && #[trigger] E::schema_id(w) == id;
                    assert(ids@[w as int] == id);
                }
                if exists|j: int| 0 <= j < ids@.len() && ids@[j] == id {
                    let j = choose|j: int| 0 <= j < ids@.len() && ids@[j] == id;
                    assert(E::schema_id(j as usize) == id);
                }
            }
        }
    }

    /// The bit sets, the arena and the pools, for reading.
    pub(crate) fn parts(&self) -> (r: (&PresenceMap, &GenArena<E>, &E::CS))
        ensures
            presence_of(*r.0) == self.presence(),
            *r.1 == self.arena(),
            *r.2 == self.storage(),
    {
        (&self.bitsets, &self.entities, &self.components_storage)
    }

    /// The bit sets for reading, the arena and the pools for writing.
    pub(crate) fn parts_mut(&mut self) -> (r: (&PresenceMap, &mut GenArena<E>, &mut E::CS))
        ensures
            presence_of(*r.0) == old(self).presence(),
            *r.1 == old(self).arena(),
            *r.2 == old(self).storage(),
            final(self).presence() == old(self).presence(),
            final(self).arena() == *final(r.1),
            final(self).storage() == *final(r.2),
    {
        (&self.bitsets, &mut self.entities, &mut self.components_storage)
    }

    /// Derives the presence index anew from the records: gives each
    /// attachment type of the schema an empty bit set and marks each
    /// occupied slot for the attachment types that its record carries.
    pub fn regenerate_all_component_bitsets(&mut self)
        requires
            old(self).arena().wf(),
            forall|i: int| #[trigger] old(self).occupied(i) ==> i < index_limit(),
            old(self).all_held(),
            old(self).exclusive(),
            forall|id: TypeId| #[trigger] old(self).indexed(id) ==> in_schema::<E>(id),
        ensures
            final(self).wf(),
            final(self).synced(),
            final(self).fully_indexed(),
            final(self).arena() == old(self).arena(),
            final(self).storage() == old(self).storage(),
    {
        let limit = max_index();
        let records = self.entities.len();
        let capacity = if records <= limit as usize {
            records as u32
        } else {
            limit
        };
        self.init_bitsets(Some(capacity));
        let n = self.entities.capacity();
        let mut i: usize = 0;
        proof {
            assert forall|id: TypeId, j: u32| !#[trigger] self.marked(id, j) by {
                if self.indexed(id) {
                    assert(in_schema::<E>(id));
                    assert(self.presence()[id] == Set::<u32>::empty());
                }
            }
        }
        while i < n
            invariant
                i <= n,
                n == self.arena()@.len(),
                self.entities == old(self).entities,
                self.components_storage == old(self).components_storage,
                forall|j: int| #[trigger] old(self).occupied(j) ==> j < index_limit(),
                forall|id: TypeId| #[trigger] self.indexed(id) <==> in_schema::<E>(id),
                forall|id: TypeId, j: u32|
                    #[trigger] self.marked(id, j) <==> j < i && self.occupied(j as int) && self.indexed(id)
                        && self.record(j as int).carries(id),
            decreases n - i,
        {
            match self.entities.get_raw(i) {
                Some((record, _)) => {
                    proof {
                        assert(old(self).occupied(i as int));
                    }
                    let ids = record.for_each_active_component();
                    let ghost before = *self;
                    mark(&mut self.bitsets, &ids, i as u32);
                    proof {
                        assert forall|tid: TypeId| before.indexed(tid) implies (ids@.contains(tid)
                            <==> record.carries(tid)) by {
                            broadcast use vstd::seq_lib::group_filter_ensures;

                            if record.carries(tid) {
                                let k = choose|k: usize| k < E::schema_len() && #[trigger] E::schema_id(k) == tid;
                                assert(schema_of::<E>()[k as int] == tid);
                            }
                            if ids@.contains(tid) {
                                let w = choose|w: int| 0 <= w < ids@.len() && ids@[w] == tid;
                                assert(record.carries(ids@[w]));
                            }
                        }
                        assert forall|id: TypeId| #[trigger] self.indexed(id) == before.indexed(id) by {}
                        assert forall|id: TypeId, j: u32|
                            #[trigger] self.marked(id, j) <==> j < i + 1 && self.occupied(j as int) && self.indexed(
                                id,
                            ) && self.record(j as int).carries(id) by {
                            assert(before.marked(id, j) <==> j < i && before.occupied(j as int) && before.indexed(
                                id,
                            ) && before.record(j as int).carries(id));
                        }
                    }
                },
                None => {
                    proof {
                        assert forall|id: TypeId, j: u32|
                            #[trigger] self.marked(id, j) <==> j < i + 1 && self.occupied(j as int) && self.indexed(
                                id,
                            ) && self.record(j as int).carries(id) by {}
                    }
                },
            }
            i += 1;
        }
        proof {
            assert(self.marks_occupied());
            assert(self.all_held()) by {
                assert forall|j: int| #[trigger] self.occupied(j) implies held(&self.record(j), &self.storage()) by {
                    assert(old(self).occupied(j));
                }
            }
            assert(self.exclusive()) by {
                assert forall|a: int, b: int, tid: TypeId|
                    #![trigger self.record(a).handle(tid), self.record(b).handle(tid)]
                    self.occupied(a) && self.occupied(b) && a != b && self.record(a).handle(tid)
                        is Some implies self.record(a).handle(tid) != self.record(b).handle(tid) by {
                    assert(old(self).occupied(a) && old(self).occupied(b));
                }
            }
            assert forall|j: int| #[trigger] self.occupied(j) implies j < index_limit() by {
                assert(old(self).occupied(j));
            }
            assert forall|j: u32| #[trigger] self.synced_at(j) by {
                assert forall|tid: TypeId| self.indexed(tid) implies (#[trigger] self.marked(tid, j)
                    <==> self.occupied(j as int) && self.record(j as int).carries(tid)) by {}
            }
        }
    }

    /// Builds a collection from an arena of pooled records and the pools of
    /// their payloads, and derives its presence index from the records. Each
    /// occupied slot's index must be one that a bit set can hold, the pools
    /// must hold a payload behind each handle of each record, and no two
    /// records may share a handle.
    pub fn from_raw(entities: GenArena<E>, components_storage: E::CS) -> (list: Self)
        requires
            entities.wf(),
            forall|i: int|
                0 <= i < entities@.len() && (#[trigger] entities@[i]) is Occupied ==> i < index_limit() && held(
                    &entities@[i]->value,
                    &components_storage,
                ),
            forall|i: int, j: int, id: TypeId|
                #![trigger entities@[i]->value.handle(id), entities@[j]->value.handle(id)]
                0 <= i < entities@.len() && 0 <= j < entities@.len() && i != j && entities@[i] is Occupied
                    && entities@[j] is Occupied && entities@[i]->value.handle(id) is Some
                    ==> entities@[i]->value.handle(id) != entities@[j]->value.handle(id),
        ensures
            list.wf(),
            list.synced(),
            list.fully_indexed(),
            list.arena() == entities,
            list.storage() == components_storage,
    {
        let mut list = EntityList { bitsets: presence_new(), entities, components_storage };
        proof {
            assert(list.presence() =~= Map::empty());
            assert forall|i: int| #[trigger] list.occupied(i) implies i < index_limit() && held(
                &list.record(i),
                &list.storage(),
            ) by {
                let _ = entities@[i];
            }
            assert(list.all_held());
            assert(list.exclusive());
        }
        list.regenerate_all_component_bitsets();
        list
    }

    /// Gives the attachment type `C` a bit set, in place of the one that it
    /// has, if any, and marks in it each slot whose record carries a payload
    /// of the type. The bit set has room for as many indices as the arena
    /// has slots, which must be no more than a bit set can hold.
    pub fn add_bitset_for_component<C: RefComponent<E>>(&mut self)
        requires
            old(self).wf(),
            in_schema::<E>(C::id()),
            old(self).arena()@.len() <= index_limit(),
        ensures
            final(self).wf(),
            old(self).same_records(final(self)),
            final(self).indexed(C::id()),
            forall|tid: TypeId| tid != C::id() ==> #[trigger] final(self).indexed(tid) == old(self).indexed(tid),
            forall|tid: TypeId, i: u32|
                tid != C::id() ==> #[trigger] final(self).marked(tid, i) == old(self).marked(tid, i),
            forall|i: u32|
                #[trigger] final(self).marked(C::id(), i) <==> final(self).occupied(i as int) && final(self).record(i as int).carries(C::id()),
            forall|i: u32| old(self).synced_at(i) ==> #[trigger] final(self).synced_at(i),
    {
        let n = self.entities.capacity();
        let mut bitset = bitset_with_capacity(n as u32);
        let mut i: usize = 0;
        while i < n
            invariant
                i <= n,
                n == self.arena()@.len(),
                n <= index_limit(),
                *self == *old(self),
                self.wf(),
                forall|j: u32|
                    #[trigger] members(bitset).contains(j) <==> j < i && self.occupied(j as int) && self.record(
                        j as int,
                    ).carries(C::id()),
            decreases n - i,
        {
            match self.entities.get_raw(i) {
                Some((record, _)) => {
                    proof {
                        assert(self.occupied(i as int));
                        self.lemma_carries_payload::<C>(i as int);
                    }
                    if C::get_in(record, &self.components_storage).is_some() {
                        bitset_add(&mut bitset, i as u32);
                    }
                },
                None => {},
            }
            i += 1;
        }
        presence_insert(&mut self.bitsets, C::type_id(), bitset);
        proof {
            let before = old(self);
            assert(before.same_records(self));
            assert forall|tid: TypeId| #[trigger] self.indexed(tid) implies in_schema::<E>(tid) by {
                if tid != C::id() {
                    assert(before.indexed(tid));
                }
            }
            assert forall|tid: TypeId, j: u32|
                tid != C::id() implies #[trigger] self.marked(tid, j) == before.marked(tid, j) by {}
            assert forall|tid: TypeId, j: u32| #[trigger] self.marked(tid, j) implies before.occupied(j as int) by {
                if tid != C::id() {
                    assert(before.marked(tid, j));
                }
            }
            before.lemma_same_records(self);
            assert forall|j: u32| before.synced_at(j) implies #[trigger] self.synced_at(j) by {
                before.lemma_same_marks(self, j);
            }
        }
    }

    /// Takes the bit set of the attachment type `C` away and tells whether
    /// there was one. Queries for the type need the bit set back.
    pub fn remove_bitset_for_component<C: RefComponent<E>>(&mut self) -> (r: bool)
        requires
            old(self).wf(),
        ensures
            final(self).wf(),
            old(self).same_records(final(self)),
            r == old(self).indexed(C::id()),
            !final(self).indexed(C::id()),
            forall|tid: TypeId| tid != C::id() ==> #[trigger] final(self).indexed(tid) == old(self).indexed(tid),
            forall|tid: TypeId, i: u32|
                tid != C::id() ==> #[trigger] final(self).marked(tid, i) == old(self).marked(tid, i),
            forall|i: u32| old(self).synced_at(i) ==> #[trigger] final(self).synced_at(i),
    {
        let removed = presence_remove(&mut self.bitsets, &C::type_id()).is_some();
        proof {
            let before = old(self);
            assert(before.same_records(self));
            assert forall|tid: TypeId| #[trigger] self.indexed(tid) implies in_schema::<E>(tid) by {
                assert(before.indexed(tid));
            }
            assert forall|tid: TypeId, j: u32|
                tid != C::id() implies #[trigger] self.marked(tid, j) == before.marked(tid, j) by {}
            assert forall|tid: TypeId, j: u32| #[trigger] self.marked(tid, j) implies before.occupied(j as int) by {
                assert(before.marked(tid, j));
            }
            before.lemma_same_records(self);
            assert forall|j: u32| before.synced_at(j) implies #[trigger] self.synced_at(j) by {
                before.lemma_same_marks(self, j);
            }
        }
        removed
    }

    /// The slots as they are written out for a collection that is stored:
    /// each free slot as it is, each occupied slot with its record as it is
    /// written out.
    pub fn naked_entries(&self) -> (entries: Vec<Entry<E::Naked>>)
        ensures
            entries@.len() == self.arena()@.len(),
            forall|i: int|
                0 <= i < entries@.len() ==> #[trigger] entries@[i] == (match self.arena()@[i] {
                    Entry::Free { next_generation, next_free } => Entry::<E::Naked>::Free {
                        next_generation,
                        next_free,
                    },
                    Entry::Occupied { generation, value } => Entry::<E::Naked>::Occupied {
                        generation,
                        value: value.naked(),
                    },
                }),
    {
        let slots = self.entities.entries();
        let mut entries: Vec<Entry<E::Naked>> = Vec::new();
        let mut i: usize = 0;
        while i < slots.len()
            invariant
                i <= slots@.len(),
                slots@ == self.arena()@,
                entries@.len() == i,
                forall|k: int|
                    0 <= k < i ==> #[trigger] entries@[k] == (match self.arena()@[k] {
                        Entry::Free { next_generation, next_free } => Entry::<E::Naked>::Free {
                            next_generation,
                            next_free,
                        },
                        Entry::Occupied { generation, value } => Entry::<E::Naked>::Occupied {
                            generation,
                            value: value.naked(),
                        },
                    }),
            decreases slots@.len() - i,
        {
            let entry = match &slots[i] {
                Entry::Free { next_generation, next_free } => Entry::Free {
                    next_generation: *next_generation,
                    next_free: *next_free,
                },
                Entry::Occupied { generation, value } => Entry::Occupied {
                    generation: *generation,
                    value: value.as_naked(),
                },
            };
            entries.push(entry);
            i += 1;
        }
        entries
    }

    /// The arena with the pooled records.
    pub fn entities(&self) -> (arena: &GenArena<E>)
        ensures
            *arena == self.arena(),
    {
        &self.entities
    }

    /// The pools.
    pub fn components_storage(&self) -> (cs: &E::CS)
        ensures
            *cs == self.storage(),
    {
        &self.components_storage
    }

    /// The number of records.
    pub fn len(&self) -> (n: usize)
        ensures
            n == self.arena().spec_len(),
    {
        self.entities.len()
    }

    /// Whether `id` names a record of the collection.
    pub fn contains(&self, id: EntityId) -> (r: bool)
        ensures
            r == self.live(id),
    {
        self.entities.contains(id)
    }

    /// Inserts a detached record: moves its payloads into the pools, stores
    /// the pooled record in the arena and marks its slot for the attachment
    /// types that it carries. Returns the record's handle.
    pub fn insert(&mut self, entity: E::Owned) -> (id: EntityId)
        requires
            old(self).wf(),
            old(self).has_room(),
        ensures
            final(self).wf(),
            old(self).inserts(&entity, final(self), id),
            final(self).live(id),
            !old(self).live(id),
            final(self).synced_at(id.index as u32),
            old(self).synced() ==> final(self).synced(),
    {
        let ghost owned = entity;
        let type_ids = entity.for_each_active_component();
        let record = E::from_owned(entity, &mut self.components_storage);
        proof {
            old(self).arena().lemma_head();
        }
        let entity_id = self.entities.push(record);
        let index = entity_id.index as u32;
        mark(&mut self.bitsets, &type_ids, index);
        proof {
            assert forall|tid: TypeId| old(self).indexed(tid) implies (type_ids@.contains(tid) <==> owned.carries(
                tid,
            )) by {
                broadcast use vstd::seq_lib::group_filter_ensures;

                if owned.carries(tid) {
                    owned.lemma_carries_in_schema(tid);
                    let k = choose|k: usize|
                        k < <E::Owned as EntityBase>::schema_len() && #[trigger] <E::Owned as EntityBase>::schema_id(
                            k,
                        ) == tid;
                    assert(schema_of::<E::Owned>()[k as int] == tid);
                }
                if type_ids@.contains(tid) {
                    let j = choose|j: int| 0 <= j < type_ids@.len() && type_ids@[j] == tid;
                    assert(owned.carries(type_ids@[j]));
                }
            }
            assert(old(self).inserts(&owned, self, entity_id));
            old(self).lemma_inserts(&owned, self, entity_id);
        }
        entity_id
    }

    /// Removes a record: frees its slot, takes the slot's marks for the
    /// attachment types that the record carries out of the presence index,
    /// and moves the record's payloads out of the pools into the detached
    /// record that it returns. A handle that names no record changes nothing.
    ///
    /// The presence index must agree with the record: after a write to the
    /// record's attachments through `get_mut`, call `refresh` first.
    pub fn remove(&mut self, id: EntityId) -> (r: Option<E::Owned>)
        requires
            old(self).wf(),
            old(self).live(id) ==> id.generation < u64::MAX,
            old(self).live(id) ==> forall|i: u32| i == id.index ==> old(self).synced_at(i),
        ensures
            final(self).wf(),
            old(self).removes(id, final(self)),
            old(self).hands_back(id, final(self), r),
            !final(self).live(id),
            old(self).synced() ==> final(self).synced(),
    {
        match self.entities.remove(id) {
            Some(e) => {
                proof {
                    assert(old(self).occupied(id.index as int));
                    assert(held(&old(self).record(id.index as int), &old(self).storage()));
                }
                let index = id.index as u32;
                let ids = e.for_each_active_component();
                unmark(&mut self.bitsets, &ids, index);
                let owned = e.to_owned(&mut self.components_storage);
                proof {
                    assert forall|tid: TypeId| old(self).indexed(tid) implies (ids@.contains(tid) <==> e.carries(
                        tid,
                    )) by {
                        broadcast use vstd::seq_lib::group_filter_ensures;

                        if e.carries(tid) {
                            let k = choose|k: usize| k < E::schema_len() && #[trigger] E::schema_id(k) == tid;
                            assert(schema_of::<E>()[k as int] == tid);
                        }
                        if ids@.contains(tid) {
                            let j = choose|j: int| 0 <= j < ids@.len() && ids@[j] == tid;
                            assert(e.carries(ids@[j]));
                        }
                    }
                    assert(old(self).removes(id, self));
                    old(self).lemma_removes(id, self);
                }
                Some(owned)
            },
            None => {
                proof {
                    assert(old(self).removes(id, self));
                    old(self).lemma_removes(id, self);
                }
                None
            },
        }
    }

    /// Sets the marks of the record's slot anew from the attachment types
    /// that the record carries now. To be called after a write to the
    /// record's attachments through `get_mut`. A handle that names no record
    /// changes nothing.
    pub fn refresh(&mut self, id: EntityId)
        requires
            old(self).wf(),
        ensures
            final(self).wf(),
            old(self).refreshes(id, final(self)),
            old(self).live(id) ==> final(self).synced_at(id.index as u32),
            forall|i: u32| old(self).synced_at(i) ==> #[trigger] final(self).synced_at(i),
            old(self).synced() ==> final(self).synced(),
    {
        match self.entities.get(id) {
            Some(e) => {
                proof {
                    assert(old(self).occupied(id.index as int));
                }
                let flags = e.for_each_component();
                let index = id.index as u32;
                flag(&mut self.bitsets, &flags, index);
                proof {
                    lemma_flagged(old(self).presence(), flags@, index, |t: TypeId| e.carries(t));
                    assert forall|tid: TypeId| old(self).indexed(tid) implies exists|k: int|
                        0 <= k < flags@.len() && flags@[k].0 == tid by {
                        let k = choose|k: usize| k < E::schema_len() && #[trigger] E::schema_id(k) == tid;
                        assert(flags@[k as int].0 == tid);
                    }
                    assert(old(self).refreshes(id, self));
                    old(self).lemma_refreshes(id, self);
                }
            },
            None => {
                proof {
                    assert(old(self).refreshes(id, self));
                    old(self).lemma_refreshes(id, self);
                }
            },
        }
    }

    /// The record that `id` names and the pools are, in `post`, what they
    /// are here with `component` attached to the record. The payload stands
    /// in the pool of its type, behind the record's handle where the record
    /// had one, else behind a handle that the pool did not hold. The rest of
    /// the record, the other records and the other pools are as they were.
    pub open spec fn attached<C: RefComponent<E>>(&self, id: EntityId, component: C, post: &Self) -> bool {
        let index = id.index as int;
        let before = self.record(index);
        let after = post.record(index);
        &&& post.arena()@ == self.arena()@.update(index, Entry::Occupied { generation: id.generation, value: after })
        &&& post.arena().head() == self.arena().head()
        &&& post.arena().spec_len() == self.arena().spec_len()
        &&& C::rest_pooled(&after) == C::rest_pooled(&before)
        &&& C::rest_cs(&post.storage()) == C::rest_cs(&self.storage())
        &&& forall|tid: TypeId| tid != C::id() ==> #[trigger] after.handle(tid) == before.handle(tid)
        &&& forall|tid: TypeId, key: usize|
            tid != C::id() ==> #[trigger] post.storage().holds(tid, key) == self.storage().holds(tid, key)
        &&& after.handle(C::id()) is Some
        &&& before.handle(C::id()) is Some ==> after.handle(C::id()) == before.handle(C::id())
        &&& before.handle(C::id()) is None ==> !C::pool(&self.storage())@.contains_key(after.handle(C::id())->0)
        &&& C::pool(&post.storage())@ == C::pool(&self.storage())@.insert(after.handle(C::id())->0, component)
    }

    /// The record that `id` names and the pools are, in `post`, what they
    /// are here with the payload of type `C` detached from the record. The
    /// payload is out of its pool and the record has no handle for the type.
    /// The rest of the record, the other records and the other pools are as
    /// they were.
    pub open spec fn detached<C: RefComponent<E>>(&self, id: EntityId, post: &Self) -> bool {
        let index = id.index as int;
        let before = self.record(index);
        let after = post.record(index);
        &&& post.arena()@ == self.arena()@.update(index, Entry::Occupied { generation: id.generation, value: after })
        &&& post.arena().head() == self.arena().head()
        &&& post.arena().spec_len() == self.arena().spec_len()
        &&& C::rest_pooled(&after) == C::rest_pooled(&before)
        &&& C::rest_cs(&post.storage()) == C::rest_cs(&self.storage())
        &&& forall|tid: TypeId| tid != C::id() ==> #[trigger] after.handle(tid) == before.handle(tid)
        &&& forall|tid: TypeId, key: usize|
            tid != C::id() ==> #[trigger] post.storage().holds(tid, key) == self.storage().holds(tid, key)
        &&& after.handle(C::id()) is None
        &&& C::pool(&post.storage())@ == (match before.handle(C::id()) {
            Some(key) => C::pool(&self.storage())@.remove(key),
            None => C::pool(&self.storage())@,
        })
    }

    /// The arena and the pools of `post` are those of this collection.
    pub open spec fn same_records(&self, post: &Self) -> bool {
        same_arena(&self.arena(), &post.arena()) && post.storage() == self.storage()
    }

    /// `post` is this collection after `add_component_for_entity` has
    /// attached `component` to the record that `id` names, and marked the
    /// record's slot for the type. Where `id` names no record, nothing has
    /// changed.
    pub open spec fn attaches<C: RefComponent<E>>(&self, id: EntityId, component: C, post: &Self) -> bool {
        &&& forall|tid: TypeId| #[trigger] post.indexed(tid) == self.indexed(tid)
        &&& if self.live(id) {
            &&& self.attached::<C>(id, component, post)
            &&& forall|tid: TypeId, i: u32|
                #[trigger] post.marked(tid, i) == (self.marked(tid, i) || (i == id.index && tid == C::id()
                    && self.indexed(tid)))
        } else {
            &&& self.same_records(post)
            &&& forall|tid: TypeId, i: u32| #[trigger] post.marked(tid, i) == self.marked(tid, i)
        }
    }

    /// `post` is this collection after `remove_component_for_entity` has
    /// detached the payload of type `C` from the record that `id` names;
    /// where there was a payload, the mark of the record's slot for the type
    /// is gone. Where `id` names no record, nothing has changed.
    pub open spec fn detaches<C: RefComponent<E>>(&self, id: EntityId, post: &Self) -> bool {
        &&& forall|tid: TypeId| #[trigger] post.indexed(tid) == self.indexed(tid)
        &&& if self.live(id) {
            &&& self.detached::<C>(id, post)
            &&& forall|tid: TypeId, i: u32|
                #[trigger] post.marked(tid, i) == (self.marked(tid, i) && !(i == id.index && tid == C::id()
                    && self.record(id.index as int).handle(C::id()) is Some))
        } else {
            &&& self.same_records(post)
            &&& forall|tid: TypeId, i: u32| #[trigger] post.marked(tid, i) == self.marked(tid, i)
        }
    }

    /// Attaches `component` to the record that `entity_id` names, in place
    /// of the payload of its type if there is one, and marks the record's
    /// slot for the type. Hands `component` back where `entity_id` names no
    /// record.
    pub fn add_component_for_entity<C: RefComponent<E>>(&mut self, entity_id: EntityId, component: C) -> (r:
        Option<C>)
        requires
            old(self).wf(),
        ensures
            final(self).wf(),
            old(self).attaches::<C>(entity_id, component, final(self)),
            r == (if old(self).live(entity_id) {
                None
            } else {
                Some(component)
            }),
            old(self).live(entity_id) ==> pooled_payload::<E, C>(
                &final(self).record(entity_id.index as int),
                &final(self).storage(),
            ) == Some(component),
            forall|i: u32| old(self).synced_at(i) ==> #[trigger] final(self).synced_at(i),
            old(self).synced() ==> final(self).synced(),
    {
        proof {
            if old(self).live(entity_id) {
                assert(old(self).occupied(entity_id.index as int));
                assert(held(&old(self).record(entity_id.index as int), &old(self).storage()));
                let before = old(self).record(entity_id.index as int);
                if before.handle(C::id()) is Some {
                    C::lemma_pool_holds(&old(self).storage(), before.handle(C::id())->0);
                }
            }
        }
        let maybe_component = match self.entities.get_mut(entity_id) {
            Some(e) => {
                C::set_in(component, e, &mut self.components_storage);
                None
            },
            None => Some(component),
        };
        if maybe_component.is_none() {
            mark_one(&mut self.bitsets, C::type_id(), entity_id.index as u32);
        }
        proof {
            assert(old(self).attaches::<C>(entity_id, component, self));
            old(self).lemma_attaches::<C>(entity_id, component, self);
        }
        maybe_component
    }

    /// Detaches the payload of type `C` from the record that `entity_id`
    /// names and returns it; where there was one, takes the mark of the
    /// record's slot for the type away. Returns nothing where `entity_id`
    /// names no record or the record carries no such payload.
    pub fn remove_component_for_entity<C: RefComponent<E>>(&mut self, entity_id: EntityId) -> (r: Option<Box<C>>)
        requires
            old(self).wf(),
        ensures
            final(self).wf(),
            old(self).detaches::<C>(entity_id, final(self)),
            r == (if old(self).live(entity_id) {
                match pooled_payload::<E, C>(&old(self).record(entity_id.index as int), &old(self).storage()) {
                    Some(c) => Some(Box::new(c)),
                    None => None,
                }
            } else {
                None
            }),
            forall|i: u32| old(self).synced_at(i) ==> #[trigger] final(self).synced_at(i),
            old(self).synced() ==> final(self).synced(),
    {
        proof {
            if old(self).live(entity_id) {
                assert(old(self).occupied(entity_id.index as int));
                assert(held(&old(self).record(entity_id.index as int), &old(self).storage()));
                let before = old(self).record(entity_id.index as int);
                if before.handle(C::id()) is Some {
                    C::lemma_pool_holds(&old(self).storage(), before.handle(C::id())->0);
                }
            }
        }
        let maybe_component = match self.entities.get_mut(entity_id) {
            Some(e) => C::remove_in(e, &mut self.components_storage),
            None => None,
        };
        if maybe_component.is_some() {
            unmark_one(&mut self.bitsets, C::type_id(), entity_id.index as u32);
        }
        proof {
            assert(old(self).detaches::<C>(entity_id, self));
            old(self).lemma_detaches::<C>(entity_id, self);
        }
        maybe_component
    }

    /// The record that `id` names, with the pools, for reading.
    pub fn get(&self, id: EntityId) -> (r: Option<Pooled<'_, E>>)
        ensures
            match r {
                Some(p) => self.live(id) && p.record() == self.record(id.index as int) && p.pools()
                    == self.storage(),
                None => !self.live(id),
            },
    {
        match self.entities.get(id) {
            Some(entity) => Some(Pooled { entity, cs: &self.components_storage }),
            None => None,
        }
    }

    /// The record that `id` names, with the pools, for writing.
    ///
    /// What is written to the record's attachments through the result does
    /// not reach the presence index: call `refresh` afterwards, or use
    /// `add_component_for_entity` and `remove_component_for_entity`.
    pub fn get_mut(&mut self, id: EntityId) -> (r: Option<PooledMut<'_, E>>)
        ensures
            final(self).arena().head() == old(self).arena().head(),
            final(self).arena().spec_len() == old(self).arena().spec_len(),
            forall|tid: TypeId| #[trigger] final(self).indexed(tid) == old(self).indexed(tid),
            forall|tid: TypeId, i: u32| #[trigger] final(self).marked(tid, i) == old(self).marked(tid, i),
            match r {
                Some(p) => {
                    &&& old(self).live(id)
                    &&& p.record() == old(self).record(id.index as int)
                    &&& p.pools() == old(self).storage()
                    &&& final(self).arena()@ == old(self).arena()@.update(
                        id.index as int,
                        Entry::Occupied { generation: id.generation, value: *final(p.entity) },
                    )
                    &&& final(self).storage() == *final(p.cs)
                },
                None => {
                    &&& !old(self).live(id)
                    &&& final(self).arena()@ == old(self).arena()@
                    &&& final(self).storage() == old(self).storage()
                },
            },
    {
        match self.entities.get_mut(id) {
            Some(entity) => Some(PooledMut { entity, cs: &mut self.components_storage }),
            None => None,
        }
    }
}

impl<E: EntityRefBase> Clone for EntityList<E> {
    /// A copy with nothing shared: the arena with each record cloned, the
    /// pools cloned, and bit sets that hold the same indices.
    fn clone(&self) -> (r: Self)
        ensures
            same_shape(self.arena()@, r.arena()@),
            r.arena().head() == self.arena().head(),
            r.arena().spec_len() == self.arena().spec_len(),
            forall|i: int| #[trigger] self.occupied(i) ==> cloned::<E>(self.record(i), r.record(i)),
            cloned::<E::CS>(self.storage(), r.storage()),
            forall|tid: TypeId| #[trigger] r.indexed(tid) == self.indexed(tid),
            forall|tid: TypeId, i: u32| #[trigger] r.marked(tid, i) == self.marked(tid, i),
            self.wf() ==> r.wf(),
            forall|i: u32| self.wf() && self.synced_at(i) ==> #[trigger] r.synced_at(i),
    {
        let r = EntityList {
            bitsets: presence_clone(&self.bitsets),
            entities: self.entities.clone(),
            components_storage: self.components_storage.clone(),
        };
        proof {
            assert(r.presence() =~~= self.presence());
            assert forall|i: int| #[trigger] self.occupied(i) implies cloned::<E>(self.record(i), r.record(i)) by {
                let _ = self.arena()@[i];
            }
            if self.wf() {
                self.lemma_cloned(&r);
            }
        }
        r
    }

    /// Makes this collection a copy of `other`, with nothing shared.
    fn clone_from(&mut self, other: &Self)
        ensures
            same_shape(other.arena()@, final(self).arena()@),
            final(self).arena().head() == other.arena().head(),
            final(self).arena().spec_len() == other.arena().spec_len(),
            forall|i: int| #[trigger] other.occupied(i) ==> cloned::<E>(other.record(i), final(self).record(i)),
            cloned::<E::CS>(other.storage(), final(self).storage()),
            forall|tid: TypeId| #[trigger] final(self).indexed(tid) == other.indexed(tid),
            forall|tid: TypeId, i: u32| #[trigger] final(self).marked(tid, i) == other.marked(tid, i),
            other.wf() ==> final(self).wf(),
            forall|i: u32| other.wf() && other.synced_at(i) ==> #[trigger] final(self).synced_at(i),
    {
        *self = other.clone();
    }
}

} // verus!
