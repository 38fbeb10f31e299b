//! A pooled record seen together with the pools that hold its payloads.

use crate::component_storage::ComponentsStorage;
use crate::entity::{EntityRefBase, RefComponent};
use std::any::TypeId;
use vstd::prelude::*;

verus! {

/// A pooled record and the pools, for reading.
pub struct Pooled<'a, E: EntityRefBase> {
    pub entity: &'a E,
    pub cs: &'a E::CS,
}

/// A pooled record and the pools, for writing.
///
/// What is written to the record's attachments goes to the record and the
/// pools only. The presence index of the collection that lent them learns
/// of it by `refresh`.
pub struct PooledMut<'a, E: EntityRefBase> {
    pub entity: &'a mut E,
    pub cs: &'a mut E::CS,
}

impl<'a, E: EntityRefBase> Pooled<'a, E> {
    /// The record.
    pub open spec fn record(&self) -> E {
        *self.entity
    }

    /// The pools.
    pub open spec fn pools(&self) -> E::CS {
        *self.cs
    }

    /// The record carries a payload of type `C`.
    pub fn has<C: RefComponent<E>>(&self) -> (r: bool)
        ensures
            r == (self.record().handle(C::id()) matches Some(key) && C::pool(&self.pools())@.contains_key(key)),
    {
        C::get_in(self.entity, self.cs).is_some()
    }

    /// The record's payload of type `C`.
    pub fn get<C: RefComponent<E>>(&self) -> (r: Option<&'a C>)
        ensures
            r == (match self.record().handle(C::id()) {
                Some(key) => if C::pool(&self.pools())@.contains_key(key) {
                    Some(&C::pool(&self.pools())@[key])
                } else {
                    None
                },
                None => None,
            }),
    {
        C::get_in(self.entity, self.cs)
    }

    /// Reads the record's payload of type `C` through `f`.
    pub fn peek<C: RefComponent<E>, O, F: FnOnce(&C) -> O>(&self, f: F) -> (r: Option<O>)
        requires
            self.record().handle(C::id()) matches Some(key) ==> C::pool(&self.pools())@.contains_key(key)
                ==> call_requires(f, (&C::pool(&self.pools())@[key],)),
        ensures
            match self.record().handle(C::id()) {
                Some(key) => if C::pool(&self.pools())@.contains_key(key) {
                    exists|o: O| r == Some(o) && #[trigger] call_ensures(f, (&C::pool(&self.pools())@[key],), o)
                } else {
                    r is None
                },
                None => r is None,
            },
    {
        C::peek_in(self.entity, self.cs, f)
    }
}

impl<'a, E: EntityRefBase> PooledMut<'a, E> {
    /// The record, as it is now.
    pub open spec fn record(&self) -> E {
        *self.entity
    }

    /// The pools, as they are now.
    pub open spec fn pools(&self) -> E::CS {
        *self.cs
    }

    /// The record carries a payload of type `C`.
    pub fn has<C: RefComponent<E>>(&self) -> (r: bool)
        ensures
            r == (self.record().handle(C::id()) matches Some(key) && C::pool(&self.pools())@.contains_key(key)),
    {
        C::get_in(self.entity, self.cs).is_some()
    }

    /// The record's payload of type `C`.
    pub fn get<C: RefComponent<E>>(&self) -> (r: Option<&C>)
        ensures
            r == (match self.record().handle(C::id()) {
                Some(key) => if C::pool(&self.pools())@.contains_key(key) {
                    Some(&C::pool(&self.pools())@[key])
                } else {
                    None
                },
                None => None,
            }),
    {
        C::get_in(self.entity, self.cs)
    }

    /// The record's payload of type `C`, for writing.
    pub fn get_mut<C: RefComponent<E>>(&mut self) -> (r: Option<&mut C>)
        ensures
            *final(final(self).entity) == *final(old(self).entity),
            *final(final(self).cs) == *final(old(self).cs),
            final(self).record() == old(self).record(),
            C::rest_cs(&final(self).pools()) == C::rest_cs(&old(self).pools()),
            forall|id: TypeId, key: usize|
                id != C::id() ==> #[trigger] final(self).pools().holds(id, key) == old(self).pools().holds(id, key),
            match r {
                Some(payload) => {
                    &&& old(self).record().handle(C::id()) matches Some(key)
                    &&& C::pool(&old(self).pools())@.contains_key(key)
                    &&& *payload == C::pool(&old(self).pools())@[key]
                    &&& C::pool(&final(self).pools())@ == C::pool(&old(self).pools())@.insert(key, *final(payload))
                },
                None => {
                    &&& old(self).record().handle(C::id()) matches Some(key) ==> !C::pool(
                        &old(self).pools(),
                    )@.contains_key(key)
                    &&& C::pool(&final(self).pools())@ == C::pool(&old(self).pools())@
                },
            },
    {
        C::get_mut_in(self.entity, self.cs)
    }

    /// Attaches `c`, in place of the payload of its type if there is one.
    pub fn add<C: RefComponent<E>>(&mut self, c: C)
        ensures
            *final(final(self).entity) == *final(old(self).entity),
            *final(final(self).cs) == *final(old(self).cs),
            C::rest_pooled(&final(self).record()) == C::rest_pooled(&old(self).record()),
            C::rest_cs(&final(self).pools()) == C::rest_cs(&old(self).pools()),
            forall|id: TypeId|
                id != C::id() ==> #[trigger] final(self).record().handle(id) == old(self).record().handle(id),
            forall|id: TypeId, key: usize|
                id != C::id() ==> #[trigger] final(self).pools().holds(id, key) == old(self).pools().holds(id, key),
            final(self).record().handle(C::id()) is Some,
            C::pool(&final(self).pools())@ == C::pool(&old(self).pools())@.insert(final(self).record().handle(C::id())->0, c),
            old(self).record().handle(C::id()) matches Some(key) ==> C::pool(&old(self).pools())@.contains_key(key)
                ==> final(self).record().handle(C::id()) == Some(key),
            final(self).record().handle(C::id()) != old(self).record().handle(C::id()) ==> !C::pool(
                &old(self).pools(),
            )@.contains_key(final(self).record().handle(C::id())->0),
    {
        C::set_in(c, self.entity, self.cs);
    }

    /// Detaches the record's payload of type `C` and returns it. The pool
    /// must hold a payload behind the record's handle.
    pub fn remove<C: RefComponent<E>>(&mut self) -> (r: Option<Box<C>>)
        requires
            old(self).record().handle(C::id()) matches Some(key) ==> C::pool(&old(self).pools())@.contains_key(key),
        ensures
            *final(final(self).entity) == *final(old(self).entity),
            *final(final(self).cs) == *final(old(self).cs),
            C::rest_pooled(&final(self).record()) == C::rest_pooled(&old(self).record()),
            C::rest_cs(&final(self).pools()) == C::rest_cs(&old(self).pools()),
            final(self).record().handle(C::id()) is None,
            forall|id: TypeId|
                id != C::id() ==> #[trigger] final(self).record().handle(id) == old(self).record().handle(id),
            forall|id: TypeId, key: usize|
                id != C::id() ==> #[trigger] final(self).pools().holds(id, key) == old(self).pools().holds(id, key),
            match old(self).record().handle(C::id()) {
                Some(key) => r == Some(Box::new(C::pool(&old(self).pools())@[key])) && C::pool(&final(self).pools())@
                    == C::pool(&old(self).pools())@.remove(key),
                None => r is None && C::pool(&final(self).pools())@ == C::pool(&old(self).pools())@,
            },
    {
        C::remove_in(self.entity, self.cs)
    }

    /// Reads the record's payload of type `C` through `f`.
    pub fn peek<C: RefComponent<E>, O, F: FnOnce(&C) -> O>(&self, f: F) -> (r: Option<O>)
        requires
            self.record().handle(C::id()) matches Some(key) ==> C::pool(&self.pools())@.contains_key(key)
                ==> call_requires(f, (&C::pool(&self.pools())@[key],)),
        ensures
            match self.record().handle(C::id()) {
                Some(key) => if C::pool(&self.pools())@.contains_key(key) {
                    exists|o: O| r == Some(o) && #[trigger] call_ensures(f, (&C::pool(&self.pools())@[key],), o)
                } else {
                    r is None
                },
                None => r is None,
            },
    {
        C::peek_in(self.entity, self.cs, f)
    }

    /// Writes to the record's payload of type `C` through `f`.
    pub fn mutate<C: RefComponent<E>, O, F: FnOnce(&mut C) -> O>(&mut self, f: F) -> (r: Option<O>)
        requires
            forall|payload: &mut C| call_requires(f, (payload,)),
        ensures
            *final(final(self).entity) == *final(old(self).entity),
            *final(final(self).cs) == *final(old(self).cs),
            final(self).record() == old(self).record(),
            C::rest_cs(&final(self).pools()) == C::rest_cs(&old(self).pools()),
            forall|id: TypeId, key: usize|
                id != C::id() ==> #[trigger] final(self).pools().holds(id, key) == old(self).pools().holds(id, key),
            match old(self).record().handle(C::id()) {
                Some(key) => if C::pool(&old(self).pools())@.contains_key(key) {
                    exists|payload: &mut C, o: O|
                        {
                            &&& r == Some(o)
                            &&& *payload == C::pool(&old(self).pools())@[key]
                            &&& #[trigger] call_ensures(f, (payload,), o)
                            &&& C::pool(&final(self).pools())@ == C::pool(&old(self).pools())@.insert(key, *final(payload))
                        }
                } else {
                    r is None && C::pool(&final(self).pools())@ == C::pool(&old(self).pools())@
                },
                None => r is None && C::pool(&final(self).pools())@ == C::pool(&old(self).pools())@,
            },
    {
        C::update_in(self.entity, self.cs, f)
    }

    /// The record's payload of type `C` for writing, after attaching the
    /// default payload where the record had none.
    pub fn get_mut_or_default<C: RefComponent<E> + Default>(&mut self) -> (r: &mut C)
        ensures
            *final(final(self).entity) == *final(old(self).entity),
            *final(final(self).cs) == *final(old(self).cs),
            C::rest_pooled(&final(self).record()) == C::rest_pooled(&old(self).record()),
            C::rest_cs(&final(self).pools()) == C::rest_cs(&old(self).pools()),
            forall|id: TypeId|
                id != C::id() ==> #[trigger] final(self).record().handle(id) == old(self).record().handle(id),
            forall|id: TypeId, key: usize|
                id != C::id() ==> #[trigger] final(self).pools().holds(id, key) == old(self).pools().holds(
                    id,
                    key,
                ),
            final(self).record().handle(C::id()) is Some,
            C::pool(&final(self).pools())@ == C::pool(&old(self).pools())@.insert(
                final(self).record().handle(C::id())->0,
                *final(r),
            ),
            match old(self).record().handle(C::id()) {
                Some(key) => if C::pool(&old(self).pools())@.contains_key(key) {
                    final(self).record().handle(C::id()) == Some(key) && *r == C::pool(&old(self).pools())@[key]
                } else {
                    call_ensures(C::default, (), *r)
                },
                None => call_ensures(C::default, (), *r),
            },
    {
        if C::get_in(self.entity, self.cs).is_none() {
            C::set_in(C::default(), self.entity, self.cs);
        }
        let ghost pools = *self.cs;
        let ghost key = self.entity.handle(C::id())->0;
        let r = match C::get_mut_in(self.entity, self.cs) {
            Some(payload) => payload,
            None => vstd::pervasive::unreached(),
        };
        proof {
            assert(C::pool(&pools)@.insert(key, *final(r)) =~= C::pool(&old(self).pools())@.insert(
                key,
                *final(r),
            ));
        }
        r
    }

    /// Writes through `f` to the record's payload of type `C`, after
    /// attaching the default payload where the record had none.
    pub fn mutate_or_default<C: RefComponent<E> + Default, O, F: FnOnce(&mut C) -> O>(&mut self, f: F) -> (r: O)
        requires
            forall|payload: &mut C| call_requires(f, (payload,)),
        ensures
            *final(final(self).entity) == *final(old(self).entity),
            *final(final(self).cs) == *final(old(self).cs),
            C::rest_pooled(&final(self).record()) == C::rest_pooled(&old(self).record()),
            C::rest_cs(&final(self).pools()) == C::rest_cs(&old(self).pools()),
            forall|id: TypeId|
                id != C::id() ==> #[trigger] final(self).record().handle(id) == old(self).record().handle(id),
            forall|id: TypeId, key: usize|
                id != C::id() ==> #[trigger] final(self).pools().holds(id, key) == old(self).pools().holds(
                    id,
                    key,
                ),
            final(self).record().handle(C::id()) is Some,
            exists|payload: &mut C|
                {
                    &&& #[trigger] call_ensures(f, (payload,), r)
                    &&& C::pool(&final(self).pools())@ == C::pool(&old(self).pools())@.insert(
                        final(self).record().handle(C::id())->0,
                        *final(payload),
                    )
                    &&& match old(self).record().handle(C::id()) {
                        Some(key) => if C::pool(&old(self).pools())@.contains_key(key) {
                            final(self).record().handle(C::id()) == Some(key) && *payload == C::pool(
                                &old(self).pools(),
                            )@[key]
                        } else {
                            call_ensures(C::default, (), *payload)
                        },
                        None => call_ensures(C::default, (), *payload),
                    }
                },
    {
        let payload = self.get_mut_or_default::<C>();
        f(payload)
    }
}

} // verus!
