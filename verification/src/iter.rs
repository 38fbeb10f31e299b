//! Iteration over the records of a collection: all of them, those that carry
//! one attachment type, with its payload, and those that carry each of a
//! tuple of attachment types.

use crate::bitset::{ascending, bitset_iter, index_limit, presence_get, presence_of, PresenceMap};
use crate::component_storage::ComponentsStorage;
use crate::entity::{EntityRefBase, RefComponent};
use crate::entity_list::{EntityId, EntityList};
use crate::genarena::{Entry, GenArena, Index, Iter, IterMut};
use crate::pool::Pool;
use crate::pooled::{Pooled, PooledMut};
use crate::presence::{all_indexed, conjunction, marked_for_all};
use std::any::TypeId;
use vstd::prelude::*;

verus! {

/// A tuple of attachment types to ask a collection for.
///
/// Implemented for the tuples of up to eight attachment types.
pub trait MultiComponent<E: EntityRefBase> {
    /// The identifiers of the attachment types, in the tuple's order.
    spec fn ids() -> Seq<TypeId>;

    /// The identifiers of the attachment types, in the tuple's order.
    fn type_ids() -> (ids: Vec<TypeId>)
        ensures
            ids@ == Self::ids(),
    ;

    /// The indices that `bitsets` marks for each of the attachment types,
    /// from the least upwards; nothing for the empty tuple, which asks for
    /// every slot.
    fn bitset(bitsets: &PresenceMap) -> (r: Option<Vec<u32>>)
        requires
            all_indexed(presence_of(*bitsets), Self::ids()),
        ensures
            match r {
                Some(indices) => {
                    &&& Self::ids().len() > 0
                    &&& ascending(indices@)
                    &&& forall|i: u32|
                        indices@.contains(i) <==> marked_for_all(presence_of(*bitsets), Self::ids(), i)
                },
                None => Self::ids().len() == 0,
            },
    {
        let ids = Self::type_ids();
        if ids.len() == 0 {
            None
        } else {
            Some(conjunction(bitsets, &ids))
        }
    }
}

impl<E: EntityRefBase> MultiComponent<E> for () {
    open spec fn ids() -> Seq<TypeId> {
        Seq::empty()
    }

    fn type_ids() -> (ids: Vec<TypeId>) {
        Vec::new()
    }
}

impl<E: EntityRefBase, C1: RefComponent<E>> MultiComponent<E> for (C1,) {
    open spec fn ids() -> Seq<TypeId> {
        seq![C1::id()]
    }

    fn type_ids() -> (ids: Vec<TypeId>) {
        let ids = vec![C1::type_id()];
        proof {
            assert(ids@ =~= seq![C1::id()]);
        }
        ids
    }
}

impl<E: EntityRefBase, C1: RefComponent<E>, C2: RefComponent<E>> MultiComponent<E> for (C1, C2) {
    open spec fn ids() -> Seq<TypeId> {
        seq![C1::id(), C2::id()]
    }

    fn type_ids() -> (ids: Vec<TypeId>) {
        let ids = vec![C1::type_id(), C2::type_id()];
        proof {
            assert(ids@ =~= seq![C1::id(), C2::id()]);
        }
        ids
    }
}

impl<E: EntityRefBase, C1: RefComponent<E>, C2: RefComponent<E>, C3: RefComponent<E>> MultiComponent<E> for (
    C1,
    C2,
    C3,
) {
    open spec fn ids() -> Seq<TypeId> {
        seq![C1::id(), C2::id(), C3::id()]
    }

    fn type_ids() -> (ids: Vec<TypeId>) {
        let ids = vec![C1::type_id(), C2::type_id(), C3::type_id()];
        proof {
            assert(ids@ =~= seq![C1::id(), C2::id(), C3::id()]);
        }
        ids
    }
}

impl<
    E: EntityRefBase,
    C1: RefComponent<E>, C2: RefComponent<E>, C3: RefComponent<E>, C4: RefComponent<E>,
> MultiComponent<E> for (
    C1,
    C2,
    C3,
    C4,
) {
    open spec fn ids() -> Seq<TypeId> {
        seq![
            C1::id(), C2::id(), C3::id(), C4::id(),
        ]
    }

    fn type_ids() -> (ids: Vec<TypeId>) {
        let ids = vec![
            C1::type_id(), C2::type_id(), C3::type_id(), C4::type_id(),
        ];
        proof {
            assert(ids@ =~= Self::ids());
        }
        ids
    }
}

impl<
    E: EntityRefBase,
    C1: RefComponent<E>, C2: RefComponent<E>, C3: RefComponent<E>, C4: RefComponent<E>,
    C5: RefComponent<E>,
> MultiComponent<E> for (
    C1,
    C2,
    C3,
    C4,
    C5,
) {
    open spec fn ids() -> Seq<TypeId> {
        seq![
            C1::id(), C2::id(), C3::id(), C4::id(), C5::id(),
        ]
    }

    fn type_ids() -> (ids: Vec<TypeId>) {
        let ids = vec![
            C1::type_id(), C2::type_id(), C3::type_id(), C4::type_id(), C5::type_id(),
        ];
        proof {
            assert(ids@ =~= Self::ids());
        }
        ids
    }
}

impl<
    E: EntityRefBase,
    C1: RefComponent<E>, C2: RefComponent<E>, C3: RefComponent<E>, C4: RefComponent<E>,
    C5: RefComponent<E>, C6: RefComponent<E>,
> MultiComponent<E> for (
    C1,
    C2,
    C3,
    C4,
    C5,
    C6,
) {
    open spec fn ids() -> Seq<TypeId> {
        seq![
            C1::id(), C2::id(), C3::id(), C4::id(), C5::id(), C6::id(),
        ]
    }

    fn type_ids() -> (ids: Vec<TypeId>) {
        let ids = vec![
            C1::type_id(), C2::type_id(), C3::type_id(), C4::type_id(), C5::type_id(), C6::type_id(),
        ];
        proof {
            assert(ids@ =~= Self::ids());
        }
        ids
    }
}

impl<
    E: EntityRefBase,
    C1: RefComponent<E>, C2: RefComponent<E>, C3: RefComponent<E>, C4: RefComponent<E>,
    C5: RefComponent<E>, C6: RefComponent<E>, C7: RefComponent<E>,
> MultiComponent<E> for (
    C1,
    C2,
    C3,
    C4,
    C5,
    C6,
    C7,
) {
    open spec fn ids() -> Seq<TypeId> {
        seq![
            C1::id(), C2::id(), C3::id(), C4::id(), C5::id(), C6::id(), C7::id(),
        ]
    }

    fn type_ids() -> (ids: Vec<TypeId>) {
        let ids = vec![
            C1::type_id(), C2::type_id(), C3::type_id(), C4::type_id(), C5::type_id(), C6::type_id(),
            C7::type_id(),
        ];
        proof {
            assert(ids@ =~= Self::ids());
        }
        ids
    }
}

impl<
    E: EntityRefBase,
    C1: RefComponent<E>, C2: RefComponent<E>, C3: RefComponent<E>, C4: RefComponent<E>,
    C5: RefComponent<E>, C6: RefComponent<E>, C7: RefComponent<E>, C8: RefComponent<E>,
> MultiComponent<E> for (
    C1,
    C2,
    C3,
    C4,
    C5,
    C6,
    C7,
    C8,
) {
    open spec fn ids() -> Seq<TypeId> {
        seq![
            C1::id(), C2::id(), C3::id(), C4::id(), C5::id(), C6::id(), C7::id(), C8::id(),
        ]
    }

    fn type_ids() -> (ids: Vec<TypeId>) {
        let ids = vec![
            C1::type_id(), C2::type_id(), C3::type_id(), C4::type_id(), C5::type_id(), C6::type_id(),
            C7::type_id(), C8::type_id(),
        ];
        proof {
            assert(ids@ =~= Self::ids());
        }
        ids
    }
}

/// The indices of the occupied slots of `arena`, from the least upwards.
pub(crate) fn occupied_indices<T>(arena: &GenArena<T>) -> (indices: Vec<u32>)
    requires
        forall|i: int| 0 <= i < arena@.len() && (#[trigger] arena@[i]) is Occupied ==> i < index_limit(),
    ensures
        ascending(indices@),
        forall|i: u32| indices@.contains(i) <==> i < arena@.len() && arena@[i as int] is Occupied,
{
    let mut indices: Vec<u32> = Vec::new();
    let n = arena.capacity();
    let mut i: usize = 0;
    while i < n
        invariant
            i <= n,
            n == arena@.len(),
            forall|j: int| 0 <= j < arena@.len() && (#[trigger] arena@[j]) is Occupied ==> j < index_limit(),
            ascending(indices@),
            forall|k: int| 0 <= k < indices@.len() ==> (#[trigger] indices@[k]) < i,
            forall|j: u32| indices@.contains(j) <==> j < i && arena@[j as int] is Occupied,
        decreases n - i,
    {
        let ghost before = indices@;
        match arena.get_raw(i) {
            Some(_) => {
                proof {
                    let _ = arena@[i as int];
                }
                indices.push(i as u32);
                proof {
                    assert forall|j: u32| indices@.contains(j) <==> j < i + 1 && arena@[j as int] is Occupied by {
                        if before.contains(j) {
                            let w = choose|w: int| 0 <= w < before.len() && before[w] == j;
                            assert(indices@[w] == j);
                        }
                        if j == i {
                            assert(indices@[before.len() as int] == j);
                        }
                        if indices@.contains(j) {
                            let w = choose|w: int| 0 <= w < indices@.len() && indices@[w] == j;
                            if w < before.len() {
                                assert(before[w] == j);
                            }
                        }
                    }
                }
            },
            None => {},
        }
        i += 1;
    }
    indices
}

/// Walks the records of a collection that carry each of some attachment
/// types, in index order.
pub struct MultiComponentIter<'a, E: EntityRefBase> {
    pub(crate) indices: Vec<u32>,
    pub(crate) pos: usize,
    pub(crate) values: &'a GenArena<E>,
    pub(crate) cs: &'a E::CS,
}

impl<'a, E: EntityRefBase> Clone for MultiComponentIter<'a, E> {
    /// An iterator at the same place over the same records.
    fn clone(&self) -> (it: Self)
        ensures
            it@ == self@,
            it.arena() == self.arena(),
            it.pools() == self.pools(),
            it.wf() == self.wf(),
    {
        let indices = self.indices.clone();
        proof {
            assert(indices@ =~= self.indices@);
        }
        MultiComponentIter { indices, pos: self.pos, values: self.values, cs: self.cs }
    }
}

impl<'a, E: EntityRefBase> MultiComponentIter<'a, E> {
    /// The indices of the slots that are still to come, in order.
    pub closed spec fn view(&self) -> Seq<u32> {
        self.indices@.skip(self.pos as int)
    }

    /// The arena that the iterator reads the records from.
    pub closed spec fn arena(&self) -> GenArena<E> {
        *self.values
    }

    /// The pools that the records' payloads stand in.
    pub closed spec fn pools(&self) -> E::CS {
        *self.cs
    }

    /// Each slot that is still to come is occupied.
    pub closed spec fn wf(&self) -> bool {
        &&& self.pos <= self.indices@.len()
        &&& forall|k: int|
            self.pos <= k < self.indices@.len() ==> (#[trigger] self.indices@[k]) < self.values@.len()
                && self.values@[self.indices@[k] as int] is Occupied
    }

    /// An iterator over the records in the slots `indices` of `values`. Each
    /// of the slots must be occupied.
    pub fn new(indices: Vec<u32>, values: &'a GenArena<E>, cs: &'a E::CS) -> (it: Self)
        requires
            forall|k: int|
                0 <= k < indices@.len() ==> (#[trigger] indices@[k]) < values@.len() && values@[indices@[k] as int]
                    is Occupied,
        ensures
            it.wf(),
            it@ == indices@,
            it.arena() == *values,
            it.pools() == *cs,
    {
        proof {
            assert(indices@.skip(0) =~= indices@);
        }
        MultiComponentIter { indices, pos: 0, values, cs }
    }

    /// The handle of the next record, and the record with the pools.
    pub fn next(&mut self) -> (r: Option<(EntityId, Pooled<'a, E>)>)
        requires
            old(self).wf(),
        ensures
            final(self).wf(),
            final(self).arena() == old(self).arena(),
            final(self).pools() == old(self).pools(),
            match r {
                Some((id, p)) => {
                    &&& old(self)@.len() > 0
                    &&& id.index == old(self)@[0]
                    &&& old(self).arena().live(id)
                    &&& p.record() == old(self).arena().value_of(id)
                    &&& p.pools() == old(self).pools()
                    &&& final(self)@ == old(self)@.drop_first()
                },
                None => old(self)@.len() == 0 && final(self)@.len() == 0,
            },
    {
        if self.pos >= self.indices.len() {
            return None;
        }
        let index = self.indices[self.pos] as usize;
        proof {
            let _ = self.indices@[self.pos as int];
            assert(self.indices@.skip(self.pos as int).drop_first() =~= self.indices@.skip(self.pos + 1));
        }
        self.pos += 1;
        match self.values.get_raw(index) {
            Some((entity, generation)) => Some((Index::new(index, generation), Pooled { entity, cs: self.cs })),
            None => vstd::pervasive::unreached(),
        }
    }
}

/// Walks the records of a collection that carry one attachment type, in
/// index order, with the payload of that type.
#[verifier::reject_recursive_types(C)]
pub struct SingleComponentIter<'a, E: EntityRefBase, C: RefComponent<E>> {
    pub(crate) indices: Vec<u32>,
    pub(crate) pos: usize,
    pub(crate) values: &'a GenArena<E>,
    pub(crate) payloads: &'a Pool<C>,
}

impl<'a, E: EntityRefBase, C: RefComponent<E>> Clone for SingleComponentIter<'a, E, C> {
    /// An iterator at the same place over the same records.
    fn clone(&self) -> (it: Self)
        ensures
            it@ == self@,
            it.arena() == self.arena(),
            it.pool() == self.pool(),
            it.wf() == self.wf(),
    {
        let indices = self.indices.clone();
        proof {
            assert(indices@ =~= self.indices@);
        }
        SingleComponentIter { indices, pos: self.pos, values: self.values, payloads: self.payloads }
    }
}

impl<'a, E: EntityRefBase, C: RefComponent<E>> SingleComponentIter<'a, E, C> {
    /// The indices of the slots that are still to come, in order.
    pub closed spec fn view(&self) -> Seq<u32> {
        self.indices@.skip(self.pos as int)
    }

    /// The arena that the iterator reads the records from.
    pub closed spec fn arena(&self) -> GenArena<E> {
        *self.values
    }

    /// The pool that the payloads stand in.
    pub closed spec fn pool(&self) -> Pool<C> {
        *self.payloads
    }

    /// Each slot that is still to come is occupied by a record whose handle
    /// for the attachment type is behind a payload in the pool.
    pub closed spec fn wf(&self) -> bool {
        &&& self.pos <= self.indices@.len()
        &&& forall|k: int|
            self.pos <= k < self.indices@.len() ==> {
                let i = (#[trigger] self.indices@[k]) as int;
                &&& i < self.values@.len()
                &&& self.values@[i] matches Entry::Occupied { value, .. }
                &&& value.handle(C::id()) matches Some(key)
                &&& self.payloads@.contains_key(key)
            }
    }

    /// An iterator over the records of `list` that carry a payload of type
    /// `C`. The presence index must mark for the type only slots whose
    /// record carries it.
    pub fn new(list: &'a EntityList<E>) -> (it: Self)
        requires
            list.wf(),
            list.indexed(C::id()),
            forall|i: u32| #[trigger] list.marked(C::id(), i) ==> list.record(i as int).carries(C::id()),
        ensures
            it.wf(),
            ascending(it@),
            forall|i: u32| it@.contains(i) <==> list.marked(C::id(), i),
            it.arena() == list.arena(),
            it.pool() == C::pool(&list.storage()),
    {
        let (bitsets, values, cs) = list.parts();
        let bitset = match presence_get(bitsets, &C::type_id()) {
            Some(set) => set,
            None => vstd::pervasive::unreached(),
        };
        let indices = bitset_iter(bitset);
        let payloads = C::get_single_cs(cs);
        proof {
            assert(indices@.skip(0) =~= indices@);
            assert forall|k: int| 0 <= k < indices@.len() implies {
                let i = (#[trigger] indices@[k]) as int;
                &&& i < values@.len()
                &&& values@[i] matches Entry::Occupied { value, .. }
                &&& value.handle(C::id()) matches Some(key)
                &&& payloads@.contains_key(key)
            } by {
                let i = indices@[k];
                assert(indices@.contains(i));
                assert(list.marked(C::id(), i));
                assert(list.occupied(i as int));
                let record = list.record(i as int);
                record.lemma_handle(C::id());
                assert(crate::entity_list::held(&record, &list.storage()));
                let key = record.handle(C::id())->0;
                assert(list.storage().holds(C::id(), key));
                C::lemma_pool_holds(&list.storage(), key);
            }
        }
        SingleComponentIter { indices, pos: 0, values, payloads }
    }

    /// The handle of the next record, the record and its payload.
    pub fn next(&mut self) -> (r: Option<(EntityId, &'a E, &'a C)>)
        requires
            old(self).wf(),
        ensures
            final(self).wf(),
            final(self).arena() == old(self).arena(),
            final(self).pool() == old(self).pool(),
            match r {
                Some((id, entity, payload)) => {
                    &&& old(self)@.len() > 0
                    &&& id.index == old(self)@[0]
                    &&& old(self).arena().live(id)
                    &&& *entity == old(self).arena().value_of(id)
                    &&& entity.handle(C::id()) matches Some(key)
                    &&& old(self).pool()@.contains_key(key)
                    &&& *payload == old(self).pool()@[key]
                    &&& final(self)@ == old(self)@.drop_first()
                },
                None => old(self)@.len() == 0 && final(self)@.len() == 0,
            },
    {
        if self.pos >= self.indices.len() {
            return None;
        }
        let index = self.indices[self.pos] as usize;
        proof {
            let _ = self.indices@[self.pos as int];
            assert(self.indices@.skip(self.pos as int).drop_first() =~= self.indices@.skip(self.pos + 1));
        }
        self.pos += 1;
        match self.values.get_raw(index) {
            Some((entity, generation)) => {
                match C::get_cs_id(entity) {
                    Some(key) => {
                        match self.payloads.get(key) {
                            Some(payload) => Some((Index::new(index, generation), entity, payload)),
                            None => vstd::pervasive::unreached(),
                        }
                    },
                    None => vstd::pervasive::unreached(),
                }
            },
            None => vstd::pervasive::unreached(),
        }
    }
}

/// Walks the records of a collection that carry each of some attachment
/// types, in index order, and lends each with the pools for writing until
/// the next step.
pub struct MultiComponentIterMut<'a, E: EntityRefBase> {
    pub indices: Vec<u32>,
    pub pos: usize,
    pub values: &'a mut GenArena<E>,
    pub cs: &'a mut E::CS,
}

impl<'a, E: EntityRefBase> MultiComponentIterMut<'a, E> {
    /// The indices of the slots that are still to come, in order.
    pub open spec fn view(&self) -> Seq<u32> {
        self.indices@.skip(self.pos as int)
    }

    /// The arena that the iterator lends the records from, as it is now.
    pub open spec fn arena(&self) -> GenArena<E> {
        *self.values
    }

    /// The pools that the records' payloads stand in, as they are now.
    pub open spec fn pools(&self) -> E::CS {
        *self.cs
    }

    /// Each slot that is still to come is occupied.
    pub open spec fn wf(&self) -> bool {
        &&& self.pos <= self.indices@.len()
        &&& forall|k: int|
            self.pos <= k < self.indices@.len() ==> (#[trigger] self.indices@[k]) < self.arena()@.len()
                && self.arena()@[self.indices@[k] as int] is Occupied
    }

    /// An iterator over the records in the slots `indices` of `values`. Each
    /// of the slots must be occupied.
    pub fn new(indices: Vec<u32>, values: &'a mut GenArena<E>, cs: &'a mut E::CS) -> (it: Self)
        requires
            forall|k: int|
                0 <= k < indices@.len() ==> (#[trigger] indices@[k]) < old(values)@.len() && old(values)@[indices@[k] as int] is Occupied,
        ensures
            it.wf(),
            it@ == indices@,
            it.arena() == *old(values),
            it.pools() == *old(cs),
            *final(it.values) == *final(values),
            *final(it.cs) == *final(cs),
    {
        proof {
            assert(indices@.skip(0) =~= indices@);
        }
        MultiComponentIterMut { indices, pos: 0, values, cs }
    }

    /// The handle of the next record, and the record with the pools for
    /// writing. What is written stays in the record and the pools; the
    /// records still to come are not touched.
    pub fn next(&mut self) -> (r: Option<(EntityId, PooledMut<'_, E>)>)
        requires
            old(self).wf(),
        ensures
            final(self).wf(),
            *final(final(self).values) == *final(old(self).values),
            *final(final(self).cs) == *final(old(self).cs),
            final(self).indices == old(self).indices,
            final(self).arena().head() == old(self).arena().head(),
            final(self).arena().spec_len() == old(self).arena().spec_len(),
            old(self).arena().wf() ==> final(self).arena().wf(),
            match r {
                Some((id, p)) => {
                    &&& old(self)@.len() > 0
                    &&& id.index == old(self)@[0]
                    &&& old(self).arena().live(id)
                    &&& p.record() == old(self).arena().value_of(id)
                    &&& p.pools() == old(self).pools()
                    &&& final(self)@ == old(self)@.drop_first()
                    &&& final(self).arena()@ == old(self).arena()@.update(
                        id.index as int,
                        Entry::Occupied { generation: id.generation, value: *final(p.entity) },
                    )
                    &&& final(self).pools() == *final(p.cs)
                },
                None => {
                    &&& old(self)@.len() == 0
                    &&& final(self)@.len() == 0
                    &&& final(self).arena()@ == old(self).arena()@
                    &&& final(self).pools() == old(self).pools()
                },
            },
    {
        if self.pos >= self.indices.len() {
            return None;
        }
        let index = self.indices[self.pos] as usize;
        proof {
            let _ = self.indices@[self.pos as int];
            assert(self.indices@.skip(self.pos as int).drop_first() =~= self.indices@.skip(self.pos + 1));
        }
        self.pos += 1;
        match self.values.get_raw_mut(index) {
            Some((entity, generation)) => Some(
                (Index::new(index, generation), PooledMut { entity, cs: &mut *self.cs }),
            ),
            None => vstd::pervasive::unreached(),
        }
    }
}

impl<E: EntityRefBase> EntityList<E> {
    /// The slot at index `i` is occupied and marked for each of `ids`.
    pub open spec fn matches(&self, ids: Seq<TypeId>, i: u32) -> bool {
        self.occupied(i as int) && marked_for_all(self.presence(), ids, i)
    }

    /// An iterator over all records, in index order.
    pub fn iter_all(&self) -> (it: Iter<'_, E>)
        requires
            self.wf(),
        ensures
            it.wf(),
            it.slots() == self.arena()@,
            it@ == self.arena().items(),
    {
        let (_, values, _) = self.parts();
        values.iter()
    }

    /// An iterator over all records, in index order, which lends each for
    /// writing.
    pub fn iter_all_mut(&mut self) -> (it: IterMut<'_, E>)
        requires
            old(self).wf(),
        ensures
            it.wf(),
            it.slots() == old(self).arena()@,
            it@ == old(self).arena().items(),
            final(self).arena()@ == final(it.entries)@,
            final(self).arena().head() == old(self).arena().head(),
            final(self).arena().spec_len() == old(self).arena().spec_len(),
            final(self).storage() == old(self).storage(),
            final(self).presence() == old(self).presence(),
    {
        let (_, values, _) = self.parts_mut();
        values.iter_mut()
    }

    /// An iterator over the records that the presence index marks for the
    /// attachment type `C`, in index order, each with its payload of that
    /// type.
    pub fn iter_single<C: RefComponent<E>>(&self) -> (it: SingleComponentIter<'_, E, C>)
        requires
            self.wf(),
            self.indexed(C::id()),
            forall|i: u32| #[trigger] self.marked(C::id(), i) ==> self.record(i as int).carries(C::id()),
        ensures
            it.wf(),
            ascending(it@),
            forall|i: u32| it@.contains(i) <==> self.marked(C::id(), i),
            it.arena() == self.arena(),
            it.pool() == C::pool(&self.storage()),
    {
        SingleComponentIter::new(self)
    }

    /// An iterator over the records that the presence index marks for each
    /// attachment type of the tuple `C`, in index order; over all records
    /// where the tuple is empty.
    pub fn iter<C: MultiComponent<E>>(&self) -> (it: MultiComponentIter<'_, E>)
        requires
            self.wf(),
            all_indexed(self.presence(), C::ids()),
        ensures
            it.wf(),
            ascending(it@),
            forall|i: u32| it@.contains(i) <==> self.matches(C::ids(), i),
            it.arena() == self.arena(),
            it.pools() == self.storage(),
    {
        let (bitsets, values, cs) = self.parts();
        proof {
            assert forall|i: int| 0 <= i < values@.len() && (#[trigger] values@[i]) is Occupied implies i
                < index_limit() by {
                assert(self.occupied(i));
            }
        }
        let indices = match C::bitset(bitsets) {
            Some(indices) => indices,
            None => occupied_indices(values),
        };
        proof {
            assert forall|i: u32| indices@.contains(i) <==> self.matches(C::ids(), i) by {
                if C::ids().len() > 0 && marked_for_all(self.presence(), C::ids(), i) {
                    assert(self.marked(C::ids()[0], i));
                }
            }
            assert forall|k: int| 0 <= k < indices@.len() implies (#[trigger] indices@[k]) < values@.len()
                && values@[indices@[k] as int] is Occupied by {
                assert(indices@.contains(indices@[k]));
                assert(self.occupied(indices@[k] as int));
            }
        }
        MultiComponentIter::new(indices, values, cs)
    }

    /// An iterator over the records that the presence index marks for each
    /// attachment type of the tuple `C`, in index order, which lends each
    /// with the pools for writing; over all records where the tuple is
    /// empty.
    pub fn iter_mut<C: MultiComponent<E>>(&mut self) -> (it: MultiComponentIterMut<'_, E>)
        requires
            old(self).wf(),
            all_indexed(old(self).presence(), C::ids()),
        ensures
            it.wf(),
            ascending(it@),
            forall|i: u32| it@.contains(i) <==> old(self).matches(C::ids(), i),
            it.arena() == old(self).arena(),
            it.pools() == old(self).storage(),
            final(self).arena() == *final(it.values),
            final(self).storage() == *final(it.cs),
            final(self).presence() == old(self).presence(),
    {
        let (bitsets, values, cs) = self.parts_mut();
        proof {
            assert forall|i: int| 0 <= i < values@.len() && (#[trigger] values@[i]) is Occupied implies i
                < index_limit() by {
                assert(old(self).occupied(i));
            }
        }
        let indices = match C::bitset(bitsets) {
            Some(indices) => indices,
            None => occupied_indices(values),
        };
        proof {
            assert forall|i: u32| indices@.contains(i) <==> old(self).matches(C::ids(), i) by {
                if C::ids().len() > 0 && marked_for_all(old(self).presence(), C::ids(), i) {
                    assert(old(self).marked(C::ids()[0], i));
                }
            }
            assert forall|k: int| 0 <= k < indices@.len() implies (#[trigger] indices@[k]) < values@.len()
                && values@[indices@[k] as int] is Occupied by {
                assert(indices@.contains(indices@[k]));
                assert(old(self).occupied(indices@[k] as int));
            }
        }
        MultiComponentIterMut::new(indices, values, cs)
    }
}

} // verus!
