//! Why the operations of a collection keep its invariant, and what they do
//! to the agreement of the presence index with the records.

use super::{held, pooled_payload, EntityId, EntityList};
use crate::component_storage::ComponentsStorage;
use crate::entity::{EntityRefBase, RefComponent};
use crate::genarena::{same_shape, Entry};
use std::any::TypeId;
use vstd::prelude::*;

verus! {

impl<E: EntityRefBase> EntityList<E> {
    /// An insertion keeps the invariant. The new record's slot agrees with
    /// the presence index, and the other slots agree as they did.
    pub proof fn lemma_inserts(&self, owned: &E::Owned, post: &Self, id: EntityId)
        requires
            self.wf(),
            self.has_room(),
            post.arena().wf(),
            self.inserts(owned, post, id),
        ensures
            post.wf(),
            post.live(id),
            !self.live(id),
            post.synced_at(id.index as u32),
            forall|i: u32| i != id.index && self.synced_at(i) ==> #[trigger] post.synced_at(i),
            self.synced() ==> post.synced(),
    {
        let index = id.index as int;
        self.arena().lemma_head();
        assert forall|i: int| self.occupied(i) implies post.occupied(i) && post.record(i) == self.record(i) by {}
        assert forall|i: int| #[trigger] post.occupied(i) implies i == index || self.occupied(i) by {}
        assert(post.marks_occupied()) by {
            assert forall|tid: TypeId, i: u32| #[trigger] post.marked(tid, i) implies post.occupied(i as int) by {
                if i != id.index {
                    assert(self.marked(tid, i));
                }
            }
        }
        assert(post.all_held()) by {
            assert forall|i: int| #[trigger] post.occupied(i) implies held(&post.record(i), &post.storage()) by {
                if i != index {
                    assert(self.occupied(i));
                    assert(held(&self.record(i), &self.storage()));
                }
            }
        }
        assert(post.exclusive()) by {
            assert forall|i: int, j: int, tid: TypeId|
                #![trigger post.record(i).handle(tid), post.record(j).handle(tid)]
                post.occupied(i) && post.occupied(j) && i != j && post.record(i).handle(tid)
                    is Some implies post.record(i).handle(tid) != post.record(j).handle(tid) by {
                let key = post.record(i).handle(tid)->0;
                if i == index {
                    assert(self.occupied(j));
                    assert(held(&self.record(j), &self.storage()));
                    if post.record(j).handle(tid) == Some(key) {
                        assert(self.storage().holds(tid, key));
                    }
                } else if j == index {
                    assert(self.occupied(i));
                    assert(held(&self.record(i), &self.storage()));
                    assert(self.storage().holds(tid, key));
                } else {
                    assert(self.occupied(i) && self.occupied(j));
                }
            }
        }
        assert(post.synced_at(id.index as u32)) by {
            assert forall|tid: TypeId| post.indexed(tid) implies (#[trigger] post.marked(tid, id.index as u32)
                <==> post.occupied(index) && post.record(index).carries(tid)) by {
                if self.marked(tid, id.index as u32) {
                    assert(self.occupied(index));
                }
            }
        }
        assert forall|i: u32| i != id.index && self.synced_at(i) implies #[trigger] post.synced_at(i) by {
            assert forall|tid: TypeId| post.indexed(tid) implies (#[trigger] post.marked(tid, i) <==> post.occupied(
                i as int,
            ) && post.record(i as int).carries(tid)) by {
                assert(self.marked(tid, i) == post.marked(tid, i));
                assert(self.indexed(tid));
            }
        }
        if self.synced() {
            assert forall|i: u32| #[trigger] post.synced_at(i) by {
                assert(self.synced_at(i));
            }
        }
    }

    /// A removal keeps the invariant, where the presence index agreed with
    /// the record that is removed. The other slots agree with the presence
    /// index as they did.
    pub proof fn lemma_removes(&self, id: EntityId, post: &Self)
        requires
            self.wf(),
            self.live(id) ==> self.synced_at(id.index as u32),
            post.arena().wf(),
            self.removes(id, post),
        ensures
            post.wf(),
            !post.live(id),
            forall|tid: TypeId| !#[trigger] post.marked(tid, id.index as u32) || !self.live(id),
            forall|i: u32| self.synced_at(i) ==> #[trigger] post.synced_at(i),
            self.synced() ==> post.synced(),
    {
        let index = id.index as int;
        if self.live(id) {
            assert(self.occupied(index));
            assert forall|i: int| #[trigger] post.occupied(i) implies self.occupied(i) && i != index
                && post.record(i) == self.record(i) by {}
            assert forall|i: int| self.occupied(i) && i != index implies post.occupied(i) by {}
            assert forall|tid: TypeId| !#[trigger] post.marked(tid, id.index as u32) by {
                if self.marked(tid, id.index as u32) {
                    assert(self.indexed(tid));
                }
            }
            assert(post.marks_occupied()) by {
                assert forall|tid: TypeId, i: u32| #[trigger] post.marked(tid, i) implies post.occupied(
                    i as int,
                ) by {
                    assert(self.marked(tid, i));
                    assert(self.occupied(i as int));
                }
            }
            assert(post.all_held()) by {
                assert forall|i: int| #[trigger] post.occupied(i) implies held(
                    &post.record(i),
                    &post.storage(),
                ) by {
                    assert(self.occupied(i));
                    assert(held(&self.record(i), &self.storage()));
                    assert forall|tid: TypeId, key: usize|
                        post.record(i).handle(tid) == Some(key) implies #[trigger] post.storage().holds(
                        tid,
                        key,
                    ) by {
                        assert(self.storage().holds(tid, key));
                        assert(self.record(i).handle(tid) != self.record(index).handle(tid));
                    }
                }
            }
            assert(post.exclusive()) by {
                assert forall|i: int, j: int, tid: TypeId|
                    #![trigger post.record(i).handle(tid), post.record(j).handle(tid)]
                    post.occupied(i) && post.occupied(j) && i != j && post.record(i).handle(tid)
                        is Some implies post.record(i).handle(tid) != post.record(j).handle(tid) by {
                    assert(self.occupied(i) && self.occupied(j));
                }
            }
            assert forall|i: u32| self.synced_at(i) implies #[trigger] post.synced_at(i) by {
                assert forall|tid: TypeId| post.indexed(tid) implies (#[trigger] post.marked(tid, i)
                    <==> post.occupied(i as int) && post.record(i as int).carries(tid)) by {
                    assert(self.indexed(tid));
                    if i != id.index {
                        assert(self.marked(tid, i) == post.marked(tid, i));
                    }
                }
            }
        } else {
            assert forall|i: int| #[trigger] post.occupied(i) == self.occupied(i) by {}
            assert(post.marks_occupied()) by {
                assert forall|tid: TypeId, i: u32| #[trigger] post.marked(tid, i) implies post.occupied(
                    i as int,
                ) by {
                    assert(self.marked(tid, i));
                }
            }
            assert(post.all_held()) by {
                assert forall|i: int| #[trigger] post.occupied(i) implies held(
                    &post.record(i),
                    &post.storage(),
                ) by {
                    assert(self.occupied(i));
                    assert(held(&self.record(i), &self.storage()));
                }
            }
            assert(post.exclusive()) by {
                assert forall|i: int, j: int, tid: TypeId|
                    #![trigger post.record(i).handle(tid), post.record(j).handle(tid)]
                    post.occupied(i) && post.occupied(j) && i != j && post.record(i).handle(tid)
                        is Some implies post.record(i).handle(tid) != post.record(j).handle(tid) by {
                    assert(self.occupied(i) && self.occupied(j));
                }
            }
            assert forall|i: u32| self.synced_at(i) implies #[trigger] post.synced_at(i) by {
                assert forall|tid: TypeId| post.indexed(tid) implies (#[trigger] post.marked(tid, i)
                    <==> post.occupied(i as int) && post.record(i as int).carries(tid)) by {
                    assert(self.indexed(tid));
                    assert(self.marked(tid, i) == post.marked(tid, i));
                }
            }
        }
        if self.synced() {
            assert forall|i: u32| #[trigger] post.synced_at(i) by {
                assert(self.synced_at(i));
            }
        }
    }

    /// A refresh keeps the invariant. Where `id` names a record, its slot
    /// agrees with the presence index afterwards; the other slots agree as
    /// they did.
    pub proof fn lemma_refreshes(&self, id: EntityId, post: &Self)
        requires
            self.wf(),
            self.refreshes(id, post),
        ensures
            post.wf(),
            self.live(id) ==> post.synced_at(id.index as u32),
            forall|i: u32| self.synced_at(i) ==> #[trigger] post.synced_at(i),
            self.synced() ==> post.synced(),
    {
        let index = id.index as int;
        self.arena().lemma_same_shape(&post.arena());
        assert forall|i: int| #[trigger] post.occupied(i) == self.occupied(i) by {}
        assert(post.marks_occupied()) by {
            assert forall|tid: TypeId, i: u32| #[trigger] post.marked(tid, i) implies post.occupied(i as int) by {
                if !(self.live(id) && i == id.index) {
                    assert(self.marked(tid, i));
                }
            }
        }
        assert(post.all_held()) by {
            assert forall|i: int| #[trigger] post.occupied(i) implies held(&post.record(i), &post.storage()) by {
                assert(self.occupied(i));
                assert(held(&self.record(i), &self.storage()));
            }
        }
        assert(post.exclusive()) by {
            assert forall|i: int, j: int, tid: TypeId|
                #![trigger post.record(i).handle(tid), post.record(j).handle(tid)]
                post.occupied(i) && post.occupied(j) && i != j && post.record(i).handle(tid)
                    is Some implies post.record(i).handle(tid) != post.record(j).handle(tid) by {
                assert(self.occupied(i) && self.occupied(j));
            }
        }
        if self.live(id) {
            assert(self.occupied(index));
            assert(post.synced_at(id.index as u32)) by {
                assert forall|tid: TypeId| post.indexed(tid) implies (#[trigger] post.marked(tid, id.index as u32)
                    <==> post.occupied(index) && post.record(index).carries(tid)) by {
                    assert(self.indexed(tid));
                }
            }
        }
        assert forall|i: u32| self.synced_at(i) implies #[trigger] post.synced_at(i) by {
            assert forall|tid: TypeId| post.indexed(tid) implies (#[trigger] post.marked(tid, i) <==> post.occupied(
                i as int,
            ) && post.record(i as int).carries(tid)) by {
                assert(self.indexed(tid));
                if !(self.live(id) && i == id.index) {
                    assert(self.marked(tid, i) == post.marked(tid, i));
                }
            }
        }
        if self.synced() {
            assert forall|i: u32| #[trigger] post.synced_at(i) by {
                assert(self.synced_at(i));
            }
        }
    }

    /// Attaching a payload to a record keeps the invariant, whatever becomes
    /// of the marks of the record's slot. Each other slot that agreed with
    /// the presence index still does.
    pub proof fn lemma_attached<C: RefComponent<E>>(&self, id: EntityId, component: C, post: &Self)
        requires
            self.wf(),
            self.live(id),
            self.attached::<C>(id, component, post),
            forall|tid: TypeId| #[trigger] post.indexed(tid) == self.indexed(tid),
            forall|tid: TypeId, i: u32| i != id.index ==> #[trigger] post.marked(tid, i) == self.marked(tid, i),
        ensures
            post.wf(),
            post.live(id),
            pooled_payload::<E, C>(&post.record(id.index as int), &post.storage()) == Some(component),
            forall|tid: TypeId|
                #[trigger] post.record(id.index as int).carries(tid) == (self.record(id.index as int).carries(tid)
                    || tid == C::id()),
            forall|i: u32| i != id.index && self.synced_at(i) ==> #[trigger] post.synced_at(i),
    {
        let index = id.index as int;
        let before = self.record(index);
        let after = post.record(index);
        let key = after.handle(C::id())->0;
        assert(self.occupied(index));
        assert(same_shape(self.arena()@, post.arena()@)) by {
            assert forall|i: int| 0 <= i < self.arena()@.len() implies match #[trigger] self.arena()@[i] {
                Entry::Free { next_generation, next_free } => post.arena()@[i] == (Entry::<E>::Free {
                    next_generation,
                    next_free,
                }),
                Entry::Occupied { generation, .. } => post.arena()@[i] is Occupied && post.arena()@[i]->generation
                    == generation,
            } by {}
        }
        self.arena().lemma_same_shape(&post.arena());
        assert forall|i: int| #[trigger] post.occupied(i) == self.occupied(i) by {}
        assert forall|i: int| self.occupied(i) && i != index implies post.record(i) == self.record(i) by {}
        assert forall|k: usize| #[trigger]
            post.storage().holds(C::id(), k) == (self.storage().holds(C::id(), k) || k == key) by {
            C::lemma_pool_holds(&post.storage(), k);
            C::lemma_pool_holds(&self.storage(), k);
        }
        assert forall|tid: TypeId|
            #[trigger] after.carries(tid) == (before.carries(tid) || tid == C::id()) by {
            before.lemma_handle(tid);
            after.lemma_handle(tid);
        }
        assert(post.marks_occupied()) by {
            assert forall|tid: TypeId, i: u32| #[trigger] post.marked(tid, i) implies post.occupied(i as int) by {
                if i != id.index {
                    assert(self.marked(tid, i));
                }
            }
        }
        assert(post.all_held()) by {
            assert forall|i: int| #[trigger] post.occupied(i) implies held(&post.record(i), &post.storage()) by {
                assert(self.occupied(i));
                assert(held(&self.record(i), &self.storage()));
                assert forall|tid: TypeId, k: usize|
                    post.record(i).handle(tid) == Some(k) implies #[trigger] post.storage().holds(tid, k) by {
                    if tid != C::id() {
                        assert(self.record(i).handle(tid) == Some(k));
                        assert(self.storage().holds(tid, k));
                    } else if i != index {
                        assert(self.storage().holds(tid, k));
                    }
                }
            }
        }
        assert(post.exclusive()) by {
            assert forall|i: int, j: int, tid: TypeId|
                #![trigger post.record(i).handle(tid), post.record(j).handle(tid)]
                post.occupied(i) && post.occupied(j) && i != j && post.record(i).handle(tid)
                    is Some implies post.record(i).handle(tid) != post.record(j).handle(tid) by {
                assert(self.occupied(i) && self.occupied(j));
                if tid == C::id() && (i == index || j == index) {
                    let other = if i == index {
                        j
                    } else {
                        i
                    };
                    assert(held(&self.record(other), &self.storage()));
                    if self.record(other).handle(tid) == Some(key) {
                        assert(self.storage().holds(tid, key));
                        C::lemma_pool_holds(&self.storage(), key);
                        assert(before.handle(tid) is Some);
                        assert(self.record(index).handle(tid) != self.record(other).handle(tid));
                    }
                } else {
                    assert(self.record(i).handle(tid) == post.record(i).handle(tid));
                    assert(self.record(j).handle(tid) == post.record(j).handle(tid));
                }
            }
        }
        assert forall|i: u32| i != id.index && self.synced_at(i) implies #[trigger] post.synced_at(i) by {
            assert forall|tid: TypeId| post.indexed(tid) implies (#[trigger] post.marked(tid, i) <==> post.occupied(
                i as int,
            ) && post.record(i as int).carries(tid)) by {
                assert(self.indexed(tid));
                assert(self.marked(tid, i) <==> self.occupied(i as int) && self.record(i as int).carries(tid));
            }
        }
    }

    /// Attaching a payload through the collection keeps the invariant, and
    /// each slot that agreed with the presence index still does.
    pub proof fn lemma_attaches<C: RefComponent<E>>(&self, id: EntityId, component: C, post: &Self)
        requires
            self.wf(),
            self.attaches::<C>(id, component, post),
        ensures
            post.wf(),
            self.live(id) ==> pooled_payload::<E, C>(&post.record(id.index as int), &post.storage()) == Some(
                component,
            ),
            forall|i: u32| self.synced_at(i) ==> #[trigger] post.synced_at(i),
            self.synced() ==> post.synced(),
    {
        if self.live(id) {
            self.lemma_attached::<C>(id, component, post);
            assert(self.occupied(id.index as int));
            assert forall|i: u32| self.synced_at(i) implies #[trigger] post.synced_at(i) by {
                if i == id.index {
                    assert forall|tid: TypeId| post.indexed(tid) implies (#[trigger] post.marked(tid, i)
                        <==> post.occupied(i as int) && post.record(i as int).carries(tid)) by {
                        assert(self.indexed(tid));
                        assert(self.marked(tid, i) <==> self.occupied(i as int) && self.record(i as int).carries(
                            tid,
                        ));
                    }
                }
            }
        } else {
            self.lemma_unchanged(post);
        }
        if self.synced() {
            assert forall|i: u32| #[trigger] post.synced_at(i) by {
                assert(self.synced_at(i));
            }
        }
    }

    /// Detaching a payload from a record keeps the invariant, whatever
    /// becomes of the marks of the record's slot. Each other slot that
    /// agreed with the presence index still does.
    pub proof fn lemma_detached<C: RefComponent<E>>(&self, id: EntityId, post: &Self)
        requires
            self.wf(),
            self.live(id),
            self.detached::<C>(id, post),
            forall|tid: TypeId| #[trigger] post.indexed(tid) == self.indexed(tid),
            forall|tid: TypeId, i: u32| i != id.index ==> #[trigger] post.marked(tid, i) == self.marked(tid, i),
        ensures
            post.wf(),
            post.live(id),
            pooled_payload::<E, C>(&post.record(id.index as int), &post.storage()) is None,
            forall|tid: TypeId|
                #[trigger] post.record(id.index as int).carries(tid) == (self.record(id.index as int).carries(tid)
                    && tid != C::id()),
            forall|i: u32| i != id.index && self.synced_at(i) ==> #[trigger] post.synced_at(i),
    {
        let index = id.index as int;
        let before = self.record(index);
        let after = post.record(index);
        assert(self.occupied(index));
        assert(same_shape(self.arena()@, post.arena()@)) by {
            assert forall|i: int| 0 <= i < self.arena()@.len() implies match #[trigger] self.arena()@[i] {
                Entry::Free { next_generation, next_free } => post.arena()@[i] == (Entry::<E>::Free {
                    next_generation,
                    next_free,
                }),
                Entry::Occupied { generation, .. } => post.arena()@[i] is Occupied && post.arena()@[i]->generation
                    == generation,
            } by {}
        }
        self.arena().lemma_same_shape(&post.arena());
        assert forall|i: int| #[trigger] post.occupied(i) == self.occupied(i) by {}
        assert forall|i: int| self.occupied(i) && i != index implies post.record(i) == self.record(i) by {}
        assert forall|k: usize| #[trigger]
            post.storage().holds(C::id(), k) == (self.storage().holds(C::id(), k) && before.handle(C::id())
                != Some(k)) by {
            C::lemma_pool_holds(&post.storage(), k);
            C::lemma_pool_holds(&self.storage(), k);
        }
        assert forall|tid: TypeId|
            #[trigger] after.carries(tid) == (before.carries(tid) && tid != C::id()) by {
            before.lemma_handle(tid);
            after.lemma_handle(tid);
        }
        assert(post.marks_occupied()) by {
            assert forall|tid: TypeId, i: u32| #[trigger] post.marked(tid, i) implies post.occupied(i as int) by {
                if i != id.index {
                    assert(self.marked(tid, i));
                }
            }
        }
        assert(post.all_held()) by {
            assert forall|i: int| #[trigger] post.occupied(i) implies held(&post.record(i), &post.storage()) by {
                assert(self.occupied(i));
                assert(held(&self.record(i), &self.storage()));
                assert forall|tid: TypeId, k: usize|
                    post.record(i).handle(tid) == Some(k) implies #[trigger] post.storage().holds(tid, k) by {
                    if tid != C::id() {
                        assert(self.record(i).handle(tid) == Some(k));
                        assert(self.storage().holds(tid, k));
                    } else {
                        assert(i != index);
                        assert(self.storage().holds(tid, k));
                        assert(self.record(i).handle(tid) != self.record(index).handle(tid));
                    }
                }
            }
        }
        assert(post.exclusive()) by {
            assert forall|i: int, j: int, tid: TypeId|
                #![trigger post.record(i).handle(tid), post.record(j).handle(tid)]
                post.occupied(i) && post.occupied(j) && i != j && post.record(i).handle(tid)
                    is Some implies post.record(i).handle(tid) != post.record(j).handle(tid) by {
                assert(self.occupied(i) && self.occupied(j));
                if tid == C::id() && (i == index || j == index) {
                } else {
                    assert(self.record(i).handle(tid) == post.record(i).handle(tid));
                    assert(self.record(j).handle(tid) == post.record(j).handle(tid));
                }
            }
        }
        assert forall|i: u32| i != id.index && self.synced_at(i) implies #[trigger] post.synced_at(i) by {
            assert forall|tid: TypeId| post.indexed(tid) implies (#[trigger] post.marked(tid, i) <==> post.occupied(
                i as int,
            ) && post.record(i as int).carries(tid)) by {
                assert(self.indexed(tid));
                assert(self.marked(tid, i) <==> self.occupied(i as int) && self.record(i as int).carries(tid));
            }
        }
    }

    /// Detaching a payload through the collection keeps the invariant, and
    /// each slot that agreed with the presence index still does.
    pub proof fn lemma_detaches<C: RefComponent<E>>(&self, id: EntityId, post: &Self)
        requires
            self.wf(),
            self.detaches::<C>(id, post),
        ensures
            post.wf(),
            forall|i: u32| self.synced_at(i) ==> #[trigger] post.synced_at(i),
            self.synced() ==> post.synced(),
    {
        if self.live(id) {
            self.lemma_detached::<C>(id, post);
            assert(self.occupied(id.index as int));
            self.record(id.index as int).lemma_handle(C::id());
            assert forall|i: u32| self.synced_at(i) implies #[trigger] post.synced_at(i) by {
                if i == id.index {
                    assert forall|tid: TypeId| post.indexed(tid) implies (#[trigger] post.marked(tid, i)
                        <==> post.occupied(i as int) && post.record(i as int).carries(tid)) by {
                        assert(self.indexed(tid));
                        assert(self.marked(tid, i) <==> self.occupied(i as int) && self.record(i as int).carries(
                            tid,
                        ));
                    }
                }
            }
        } else {
            self.lemma_unchanged(post);
        }
        if self.synced() {
            assert forall|i: u32| #[trigger] post.synced_at(i) by {
                assert(self.synced_at(i));
            }
        }
    }

    /// A collection with the same records and pools, whose bit sets are for
    /// attachment types of the schema and mark occupied slots only, has the
    /// invariant.
    pub proof fn lemma_same_records(&self, post: &Self)
        requires
            self.wf(),
            self.same_records(post),
            forall|tid: TypeId| #[trigger] post.indexed(tid) ==> super::in_schema::<E>(tid),
            forall|tid: TypeId, i: u32| #[trigger] post.marked(tid, i) ==> self.occupied(i as int),
        ensures
            post.wf(),
            forall|i: int| #[trigger] post.occupied(i) == self.occupied(i),
    {
        self.arena().lemma_same_shape(&post.arena());
        assert forall|i: int| #[trigger] post.occupied(i) == self.occupied(i) by {}
        assert(post.marks_occupied());
        assert(post.all_held()) by {
            assert forall|i: int| #[trigger] post.occupied(i) implies held(&post.record(i), &post.storage()) by {
                assert(self.occupied(i));
                assert(held(&self.record(i), &self.storage()));
            }
        }
        assert(post.exclusive()) by {
            assert forall|i: int, j: int, tid: TypeId|
                #![trigger post.record(i).handle(tid), post.record(j).handle(tid)]
                post.occupied(i) && post.occupied(j) && i != j && post.record(i).handle(tid)
                    is Some implies post.record(i).handle(tid) != post.record(j).handle(tid) by {
                assert(self.occupied(i) && self.occupied(j));
            }
        }
        assert forall|i: int| #[trigger] post.occupied(i) implies i < crate::bitset::index_limit() by {
            assert(self.occupied(i));
        }
    }

    /// A collection with the same records and pools whose marks for some
    /// attachment types are the same agrees with the presence index in each
    /// slot in which this one does, where it has bit sets for those types
    /// only and its marks for the other types are right.
    pub proof fn lemma_same_marks(&self, post: &Self, i: u32)
        requires
            self.same_records(post),
            self.synced_at(i),
            forall|tid: TypeId|
                #[trigger] post.indexed(tid) ==> (self.indexed(tid) && post.marked(tid, i) == self.marked(tid, i))
                    || (post.marked(tid, i) <==> post.occupied(i as int) && post.record(i as int).carries(tid)),
        ensures
            post.synced_at(i),
    {
        assert forall|tid: TypeId| post.indexed(tid) implies (#[trigger] post.marked(tid, i) <==> post.occupied(
            i as int,
        ) && post.record(i as int).carries(tid)) by {
            if self.indexed(tid) && post.marked(tid, i) == self.marked(tid, i) {
                assert(self.marked(tid, i) <==> self.occupied(i as int) && self.record(i as int).carries(tid));
            }
        }
    }

    /// A collection with the same slots, pools and marks has the invariant
    /// and agrees with the presence index where this one does.
    pub proof fn lemma_unchanged(&self, post: &Self)
        requires
            self.wf(),
            self.same_records(post),
            forall|tid: TypeId| #[trigger] post.indexed(tid) == self.indexed(tid),
            forall|tid: TypeId, i: u32| #[trigger] post.marked(tid, i) == self.marked(tid, i),
        ensures
            post.wf(),
            forall|i: u32| self.synced_at(i) ==> #[trigger] post.synced_at(i),
    {
        assert forall|tid: TypeId, i: u32| #[trigger] post.marked(tid, i) implies self.occupied(i as int) by {
            assert(self.marked(tid, i));
        }
        assert forall|tid: TypeId| #[trigger] post.indexed(tid) implies super::in_schema::<E>(tid) by {
            assert(self.indexed(tid));
        }
        self.lemma_same_records(post);
        assert forall|i: u32| self.synced_at(i) implies #[trigger] post.synced_at(i) by {
            self.lemma_same_marks(post, i);
        }
    }

    /// A copy of a collection, each record and the pools cloned, has the
    /// invariant and agrees with the presence index where the copied one
    /// does.
    pub proof fn lemma_cloned(&self, copy: &Self)
        requires
            self.wf(),
            same_shape(self.arena()@, copy.arena()@),
            copy.arena().head() == self.arena().head(),
            copy.arena().spec_len() == self.arena().spec_len(),
            forall|i: int| #[trigger] self.occupied(i) ==> cloned::<E>(self.record(i), copy.record(i)),
            cloned::<E::CS>(self.storage(), copy.storage()),
            forall|tid: TypeId| #[trigger] copy.indexed(tid) == self.indexed(tid),
            forall|tid: TypeId, i: u32| #[trigger] copy.marked(tid, i) == self.marked(tid, i),
        ensures
            copy.wf(),
            forall|i: u32| self.synced_at(i) ==> #[trigger] copy.synced_at(i),
    {
        self.arena().lemma_same_shape(&copy.arena());
        assert forall|i: int| #[trigger] copy.occupied(i) == self.occupied(i) by {
            if 0 <= i < self.arena()@.len() {
                let _ = self.arena()@[i];
            }
        }
        assert forall|i: int, tid: TypeId| self.occupied(i) implies #[trigger] copy.record(i).handle(tid)
            == self.record(i).handle(tid) by {
            self.record(i).lemma_clone_handle(&copy.record(i), tid);
        }
        assert(copy.marks_occupied()) by {
            assert forall|tid: TypeId, i: u32| #[trigger] copy.marked(tid, i) implies copy.occupied(i as int) by {
                assert(self.marked(tid, i));
            }
        }
        assert(copy.all_held()) by {
            assert forall|i: int| #[trigger] copy.occupied(i) implies held(&copy.record(i), &copy.storage()) by {
                assert(self.occupied(i));
                assert(held(&self.record(i), &self.storage()));
                assert forall|tid: TypeId, key: usize|
                    copy.record(i).handle(tid) == Some(key) implies #[trigger] copy.storage().holds(tid, key) by {
                    assert(self.record(i).handle(tid) == copy.record(i).handle(tid));
                    assert(self.storage().holds(tid, key));
                    self.storage().lemma_clone_holds(&copy.storage(), tid, key);
                }
            }
        }
        assert(copy.exclusive()) by {
            assert forall|i: int, j: int, tid: TypeId|
                #![trigger copy.record(i).handle(tid), copy.record(j).handle(tid)]
                copy.occupied(i) && copy.occupied(j) && i != j && copy.record(i).handle(tid)
                    is Some implies copy.record(i).handle(tid) != copy.record(j).handle(tid) by {
                assert(self.occupied(i) && self.occupied(j));
                assert(self.record(i).handle(tid) == copy.record(i).handle(tid));
                assert(self.record(j).handle(tid) == copy.record(j).handle(tid));
            }
        }
        assert forall|i: u32| self.synced_at(i) implies #[trigger] copy.synced_at(i) by {
            assert forall|tid: TypeId| copy.indexed(tid) implies (#[trigger] copy.marked(tid, i) <==> copy.occupied(
                i as int,
            ) && copy.record(i as int).carries(tid)) by {
                assert(self.indexed(tid));
                assert(self.marked(tid, i) == copy.marked(tid, i));
                if self.occupied(i as int) {
                    assert(self.record(i as int).handle(tid) == copy.record(i as int).handle(tid));
                    self.record(i as int).lemma_handle(tid);
                    copy.record(i as int).lemma_handle(tid);
                }
            }
        }
    }
}

} // verus!
