//! What holds of a collection across its operations.

use crate::component_storage::ComponentsStorage;
use crate::entity::{Component, EntityOwnedBase, EntityRefBase, RefComponent};
use crate::entity_list::{held, pooled_payload, EntityId, EntityList};
use crate::iter::MultiComponent;
use crate::presence::marked_for_all;
use std::any::TypeId;
use vstd::prelude::*;

verus! {

impl<E: EntityRefBase> EntityList<E> {
    /// After a record is inserted, removed and inserted again, what comes
    /// back from the removal and what stands in the collection at the end
    /// have the properties of the record and carry, for each attachment
    /// type, the payload that the record carried at first.
    pub proof fn law_round_trip<C: RefComponent<E>>(
        &self,
        owned: &E::Owned,
        stored: &Self,
        id: EntityId,
        emptied: &Self,
        back: &E::Owned,
        again: &Self,
        id_again: EntityId,
    )
        requires
            self.inserts(owned, stored, id),
            stored.removes(id, emptied),
            stored.hands_back(id, emptied, Some(*back)),
            emptied.inserts(back, again, id_again),
        ensures
            back.props() == owned.props(),
            again.record(id_again.index as int).props() == owned.props(),
            <C as Component<E::Owned>>::payload(back) == <C as Component<E::Owned>>::payload(owned),
            pooled_payload::<E, C>(&again.record(id_again.index as int), &again.storage()) == <C as Component<
                E::Owned,
            >>::payload(owned),
    {
        let record = stored.record(id.index as int);
        C::lemma_pooling(owned, &self.storage(), &record, &stored.storage());
        C::lemma_detaching(&record, &stored.storage(), back, &emptied.storage());
        C::lemma_pooling(back, &emptied.storage(), &again.record(id_again.index as int), &again.storage());
    }

    /// A record of a well-formed collection carries an attachment type if
    /// and only if its payload of that type can be read.
    pub proof fn lemma_carries_payload<C: RefComponent<E>>(&self, i: int)
        requires
            self.wf(),
            self.occupied(i),
        ensures
            self.record(i).carries(C::id()) <==> pooled_payload::<E, C>(&self.record(i), &self.storage())
                is Some,
    {
        let record = self.record(i);
        record.lemma_handle(C::id());
        assert(held(&record, &self.storage()));
        if record.handle(C::id()) is Some {
            let key = record.handle(C::id())->0;
            assert(self.storage().holds(C::id(), key));
            C::lemma_pool_holds(&self.storage(), key);
        }
    }

    /// Where the presence index agrees with a record, as it does after each
    /// insertion, removal and refresh, the record is among those that a
    /// query for one attachment type finds if and only if it has a payload
    /// of that type.
    pub proof fn law_presence_agrees<C: RefComponent<E>>(&self, id: EntityId)
        requires
            self.wf(),
            self.live(id),
            self.indexed(C::id()),
            forall|i: u32| i == id.index ==> self.synced_at(i),
        ensures
            self.matches(<(C,) as MultiComponent<E>>::ids(), id.index as u32) <==> pooled_payload::<E, C>(
                &self.record(id.index as int),
                &self.storage(),
            ) is Some,
    {
        let i = id.index as u32;
        let ids = <(C,) as MultiComponent<E>>::ids();
        assert(self.occupied(id.index as int));
        assert(self.synced_at(i));
        self.lemma_carries_payload::<C>(id.index as int);
        assert(self.marked(C::id(), i) <==> self.record(i as int).carries(C::id()));
        assert(ids[0] == C::id());
        if self.marked(C::id(), i) {
            assert(marked_for_all(self.presence(), ids, i));
        }
    }

    /// A record that was inserted is found by a query for one attachment
    /// type if and only if the detached record carried a payload of that
    /// type.
    pub proof fn law_inserted_is_found<C: RefComponent<E>>(&self, owned: &E::Owned, post: &Self, id: EntityId)
        requires
            self.wf(),
            self.has_room(),
            self.indexed(C::id()),
            post.wf(),
            self.inserts(owned, post, id),
        ensures
            post.matches(<(C,) as MultiComponent<E>>::ids(), id.index as u32) <==> <C as Component<
                E::Owned,
            >>::payload(owned) is Some,
    {
        self.lemma_inserts(owned, post, id);
        C::lemma_carries(owned);
        post.lemma_carries_payload::<C>(id.index as int);
        post.law_presence_agrees::<C>(id);
    }

    /// After a payload is detached from a record directly, past the presence
    /// index, the record's slot is marked for the type as it was,
    /// so a query for the type finds the record as before. After a refresh
    /// the slot is marked for the type no more, and agrees with the presence
    /// index.
    pub proof fn law_refresh_after_direct_write<C: RefComponent<E>>(
        &self,
        id: EntityId,
        written: &Self,
        refreshed: &Self,
    )
        requires
            self.wf(),
            self.live(id),
            self.indexed(C::id()),
            self.detached::<C>(id, written),
            forall|tid: TypeId| #[trigger] written.indexed(tid) == self.indexed(tid),
            forall|tid: TypeId, i: u32| #[trigger] written.marked(tid, i) == self.marked(tid, i),
            written.refreshes(id, refreshed),
        ensures
            written.wf(),
            written.marked(C::id(), id.index as u32) == self.marked(C::id(), id.index as u32),
            refreshed.wf(),
            !refreshed.marked(C::id(), id.index as u32),
            forall|i: u32| i == id.index ==> refreshed.synced_at(i),
    {
        assert(self.occupied(id.index as int));
        self.lemma_detached::<C>(id, written);
        written.lemma_refreshes(id, refreshed);
        assert(!written.record(id.index as int).carries(C::id()));
    }

    /// A slot matches a query for the attachment types `a` followed by `b`
    /// if and only if it matches the query for `a` and the query for `b`.
    pub proof fn law_conjunction(&self, a: Seq<TypeId>, b: Seq<TypeId>, i: u32)
        ensures
            self.matches(a + b, i) <==> self.matches(a, i) && self.matches(b, i),
    {
        let presence = self.presence();
        if self.matches(a + b, i) {
            assert forall|k: int| 0 <= k < a.len() implies presence[#[trigger] a[k]].contains(i) by {
                assert((a + b)[k] == a[k]);
            }
            assert forall|k: int| 0 <= k < b.len() implies presence[#[trigger] b[k]].contains(i) by {
                assert((a + b)[a.len() + k] == b[k]);
            }
        }
        if self.matches(a, i) && self.matches(b, i) {
            assert forall|k: int| 0 <= k < (a + b).len() implies presence[#[trigger] (a + b)[k]].contains(i) by {
                if k < a.len() {
                    assert((a + b)[k] == a[k]);
                } else {
                    assert((a + b)[k] == b[k - a.len()]);
                }
            }
        }
    }

    /// The records that a query for two attachment types finds are those
    /// that the query for the one and the query for the other both find.
    pub proof fn law_conjunction_of_two<C1: RefComponent<E>, C2: RefComponent<E>>(&self, i: u32)
        ensures
            self.matches(<(C1, C2) as MultiComponent<E>>::ids(), i) <==> self.matches(
                <(C1,) as MultiComponent<E>>::ids(),
                i,
            ) && self.matches(<(C2,) as MultiComponent<E>>::ids(), i),
    {
        let one = <(C1,) as MultiComponent<E>>::ids();
        let other = <(C2,) as MultiComponent<E>>::ids();
        assert(<(C1, C2) as MultiComponent<E>>::ids() =~= one + other);
        self.law_conjunction(one, other, i);
    }
}

} // verus!
